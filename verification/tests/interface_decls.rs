use arc_isle::doc::DocValue;
use arc_isle::interfaces::parse_interface;
use arc_isle::schema::{
    ApiSpec, DataType, DataTypeDecl, HttpMethod, HttpPayload, InterfaceDecl, InterfaceDeclError, InterfaceSpec,
    Primitive, PropertyDecl, StatusCode, TypeDecl, TypeDeclResults,
};
use arc_isle::tracker::Tracker;

fn string_node(s: &str) -> DocValue {
    DocValue::Str(s.to_string())
}

fn entry(k: &str, v: DocValue) -> (DocValue, DocValue) {
    (string_node(k), v)
}

fn parse(decl: Vec<(DocValue, DocValue)>) -> Result<InterfaceDecl, InterfaceDeclError> {
    let types: TypeDeclResults = Vec::new();
    let mut tracker = Tracker::new();
    parse_interface(&decl, &types, &mut tracker)
}

fn parse_with_types(
    decl: Vec<(DocValue, DocValue)>,
    types: &TypeDeclResults,
) -> Result<InterfaceDecl, InterfaceDeclError> {
    let mut tracker = Tracker::new();
    parse_interface(&decl, types, &mut tracker)
}

#[test]
fn minimal_get() {
    let hash = vec![entry("path", string_node("news")), entry("method", string_node("get"))];
    let result = parse(hash);
    assert_eq!(
        Ok(InterfaceDecl {
            ident: "news".to_string(),
            params: vec![],
            api_spec: InterfaceSpec::Api(ApiSpec {
                method: HttpMethod::Get,
                payload: None,
                responses: None,
            }),
        }),
        result
    );
}

#[test]
fn get_with_query() {
    let query = DocValue::Hash(vec![
        entry("page", string_node("int")),
        entry("limit", string_node("int?")),
    ]);
    let hash = vec![
        entry("path", string_node("news")),
        entry("method", string_node("get")),
        entry("query", query),
    ];
    let result = parse(hash);
    assert_eq!(
        Ok(InterfaceDecl {
            ident: "news".to_string(),
            params: vec![],
            api_spec: InterfaceSpec::Api(ApiSpec {
                method: HttpMethod::Get,
                payload: Some(HttpPayload::Query(vec![
                    PropertyDecl {
                        name: "page".to_string(),
                        data_type_decl: Ok(DataTypeDecl {
                            data_type: DataType::Primitive(Primitive::Int),
                            is_required: true,
                        }),
                    },
                    PropertyDecl {
                        name: "limit".to_string(),
                        data_type_decl: Ok(DataTypeDecl {
                            data_type: DataType::Primitive(Primitive::Int),
                            is_required: false,
                        }),
                    },
                ])),
                responses: None,
            }),
        }),
        result
    );
}

#[test]
fn body_prohibited_on_get() {
    let body = DocValue::Hash(vec![entry("title", string_node("str"))]);
    let hash = vec![
        entry("path", string_node("news")),
        entry("method", string_node("get")),
        entry("body", body),
    ];
    let result = parse(hash);
    assert_eq!(Err(InterfaceDeclError::BodyNotAllowed), result);
}

#[test]
fn make_simplest_post() {
    let hash = vec![entry("path", string_node("news/post")), entry("method", string_node("post"))];
    let result = parse(hash);
    assert_eq!(
        Ok(InterfaceDecl {
            ident: "news/post".to_string(),
            params: vec![],
            api_spec: InterfaceSpec::Api(ApiSpec {
                method: HttpMethod::Post,
                payload: None,
                responses: None,
            }),
        }),
        result
    );
}

#[test]
fn post_with_body() {
    let body = DocValue::Hash(vec![entry("title", string_node("str"))]);
    let hash = vec![
        entry("path", string_node("news/post")),
        entry("method", string_node("post")),
        entry("body", body),
    ];
    let result = parse(hash);
    assert_eq!(
        Ok(InterfaceDecl {
            ident: "news/post".to_string(),
            params: vec![],
            api_spec: InterfaceSpec::Api(ApiSpec {
                method: HttpMethod::Post,
                payload: Some(HttpPayload::Body(vec![PropertyDecl {
                    name: "title".to_string(),
                    data_type_decl: Ok(DataTypeDecl {
                        data_type: DataType::Primitive(Primitive::Str),
                        is_required: true,
                    }),
                }])),
                responses: None,
            }),
        }),
        result
    );
}

#[test]
fn not_allowed_post_with_query() {
    let query = DocValue::Hash(vec![
        entry("page", string_node("int")),
        entry("limit", string_node("int?")),
    ]);
    let hash = vec![
        entry("path", string_node("news/post")),
        entry("method", string_node("post")),
        entry("query", query),
    ];
    let result = parse(hash);
    assert_eq!(Err(InterfaceDeclError::QueryNotAllowed), result);
}

#[test]
fn make_simplest_put() {
    let hash = vec![entry("path", string_node("news/post")), entry("method", string_node("put"))];
    let result = parse(hash);
    assert_eq!(
        Ok(InterfaceDecl {
            ident: "news/post".to_string(),
            params: vec![],
            api_spec: InterfaceSpec::Api(ApiSpec {
                method: HttpMethod::Put,
                payload: None,
                responses: None,
            }),
        }),
        result
    );
}

#[test]
fn make_simplest_delete() {
    let hash = vec![
        entry("path", string_node("news/post/{post_id}")),
        entry("method", string_node("delete")),
    ];
    let result = parse(hash);
    assert_eq!(
        Ok(InterfaceDecl {
            ident: "news/post/{post_id}".to_string(),
            params: vec!["post_id".to_string()],
            api_spec: InterfaceSpec::Api(ApiSpec {
                method: HttpMethod::Delete,
                payload: None,
                responses: None,
            }),
        }),
        result
    );
}

#[test]
fn not_allowed_delete_with_query() {
    let query = DocValue::Hash(vec![
        entry("page", string_node("int")),
        entry("limit", string_node("int?")),
    ]);
    let hash = vec![
        entry("path", string_node("news/post/{post_id}")),
        entry("method", string_node("delete")),
        entry("query", query),
    ];
    let result = parse(hash);
    assert_eq!(Err(InterfaceDeclError::QueryNotAllowed), result);
}

#[test]
fn not_allowed_delete_with_body() {
    let body = DocValue::Hash(vec![entry("title", string_node("str"))]);
    let hash = vec![
        entry("path", string_node("news/post/{post_id}")),
        entry("method", string_node("delete")),
        entry("body", body),
    ];
    let result = parse(hash);
    assert_eq!(Err(InterfaceDeclError::BodyNotAllowed), result);
}

#[test]
fn delete_with_query_and_body_reports_query_first() {
    let query = DocValue::Hash(vec![entry("page", string_node("int"))]);
    let body = DocValue::Hash(vec![entry("title", string_node("str"))]);
    let hash = vec![
        entry("path", string_node("news/post/{post_id}")),
        entry("method", string_node("delete")),
        entry("query", query),
        entry("body", body),
    ];
    let result = parse(hash);
    assert_eq!(Err(InterfaceDeclError::QueryNotAllowed), result);
}

#[test]
fn empty_path_parameter_fails() {
    let hash = vec![
        entry("path", string_node("news/post/{}")),
        entry("method", string_node("delete")),
    ];
    let result = parse(hash);
    assert_eq!(Err(InterfaceDeclError::EmptyParam), result);
}

#[test]
fn unknown_method_fails() {
    let hash = vec![entry("path", string_node("news")), entry("method", string_node("fetch"))];
    let result = parse(hash);
    assert_eq!(Err(InterfaceDeclError::InvalidMethod), result);
}

#[test]
fn missing_path_fails() {
    let hash = vec![entry("method", string_node("get"))];
    let result = parse(hash);
    assert_eq!(Err(InterfaceDeclError::InvalidIdent), result);
}

#[test]
fn non_mapping_query_fails() {
    let hash = vec![
        entry("path", string_node("news")),
        entry("method", string_node("get")),
        entry("query", string_node("int")),
    ];
    let result = parse(hash);
    assert_eq!(Err(InterfaceDeclError::InvalidQuery), result);
}

#[test]
fn response_naming_undeclared_type_fails() {
    let hash = vec![
        entry("path", string_node("news")),
        entry("method", string_node("get")),
        entry("response", string_node("User")),
    ];
    let result = parse(hash);
    assert_eq!(Err(InterfaceDeclError::TypeNotFound("User".to_string())), result);
}

fn user_type() -> TypeDecl {
    TypeDecl {
        name: "User".to_string(),
        property_decls: vec![PropertyDecl {
            name: "id".to_string(),
            data_type_decl: Ok(DataTypeDecl {
                data_type: DataType::Primitive(Primitive::Str),
                is_required: true,
            }),
        }],
    }
}

#[test]
fn response_naming_declared_type_resolves() {
    let types: TypeDeclResults = vec![Ok(user_type())];
    let hash = vec![
        entry("path", string_node("news")),
        entry("method", string_node("get")),
        entry("response", string_node("User")),
    ];
    let result = parse_with_types(hash, &types).unwrap();
    match result.api_spec {
        InterfaceSpec::Api(api) => {
            let responses = api.responses.unwrap();
            assert_eq!(1, responses.len());
            assert_eq!(StatusCode::Fixed(200), responses[0].0);
            assert_eq!(user_type(), responses[0].1);
        }
    }
}

#[test]
fn response_mapping_with_codes_yields_fixed_and_prefix() {
    let ok_body = DocValue::Hash(vec![entry("id", string_node("str"))]);
    let err_body = DocValue::Hash(vec![entry("message", string_node("str"))]);
    let response = DocValue::Hash(vec![
        (DocValue::Int(200), ok_body),
        (string_node("4xx"), err_body),
    ]);
    let hash = vec![
        entry("path", string_node("news")),
        entry("method", string_node("get")),
        entry("response", response),
    ];
    let result = parse(hash).unwrap();
    match result.api_spec {
        InterfaceSpec::Api(api) => {
            let responses = api.responses.unwrap();
            assert_eq!(2, responses.len());
            assert_eq!(StatusCode::Fixed(200), responses[0].0);
            assert_eq!("200", responses[0].1.name);
            assert_eq!(StatusCode::Prefix(4), responses[1].0);
            assert_eq!("4xx", responses[1].1.name);
        }
    }
}

#[test]
fn response_mapping_without_codes_is_single_implicit_200() {
    let response = DocValue::Hash(vec![entry("id", string_node("str"))]);
    let hash = vec![
        entry("path", string_node("news")),
        entry("method", string_node("get")),
        entry("response", response),
    ];
    let result = parse(hash).unwrap();
    match result.api_spec {
        InterfaceSpec::Api(api) => {
            let responses = api.responses.unwrap();
            assert_eq!(1, responses.len());
            assert_eq!(StatusCode::Fixed(200), responses[0].0);
            assert_eq!(
                vec![PropertyDecl {
                    name: "id".to_string(),
                    data_type_decl: Ok(DataTypeDecl {
                        data_type: DataType::Primitive(Primitive::Str),
                        is_required: true,
                    }),
                }],
                responses[0].1.property_decls
            );
        }
    }
}

#[test]
fn malformed_status_key_fails() {
    let response = DocValue::Hash(vec![(string_node("20x"), DocValue::Hash(vec![]))]);
    let hash = vec![
        entry("path", string_node("news")),
        entry("method", string_node("get")),
        entry("response", response),
    ];
    let result = parse(hash);
    assert_eq!(Err(InterfaceDeclError::InvalidStatusCode), result);
}
