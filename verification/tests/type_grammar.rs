use arc_isle::doc::DocValue;
use arc_isle::schema::{DataType, DataTypeDecl, Primitive, PropertyDecl, TypeDecl, TypeDeclError, TypeDeclSource};
use arc_isle::tracker::Tracker;
use arc_isle::types::TypeParser;

fn string_node(s: &str) -> DocValue {
    DocValue::Str(s.to_string())
}

fn parser_for(key: &str) -> TypeParser {
    TypeParser {
        key: key.to_string(),
        source: TypeDeclSource::Type(0),
    }
}

fn parse_expr(key: &str, value: &DocValue) -> Result<DataTypeDecl, TypeDeclError> {
    let parser = parser_for(key);
    let mut tracker = Tracker::new();
    parser.make_data_type_decl(value, key, &mut tracker)
}

#[test]
fn types_make_data_type_decl_for_str() {
    let value = string_node("str");
    let data_type_decl = parse_expr("key", &value).unwrap_or_else(|_| panic!("Expect to have an OK result"));
    let expected = DataTypeDecl {
        data_type: DataType::Primitive(Primitive::Str),
        is_required: true,
    };
    assert_eq!(expected, data_type_decl);
}

#[test]
fn types_make_data_type_decl_for_optional_str() {
    let value = string_node("str?");
    let data_type_decl = parse_expr("key", &value).unwrap_or_else(|_| panic!("Expect to have an OK result"));
    let expected = DataTypeDecl {
        data_type: DataType::Primitive(Primitive::Str),
        is_required: false,
    };
    assert_eq!(expected, data_type_decl);
}

#[test]
fn types_make_data_type_decl_for_array() {
    let value = string_node("array[int]");
    let data_type_decl = parse_expr("key", &value).unwrap_or_else(|_| panic!("Expect to have an OK result"));
    let expected = DataTypeDecl {
        data_type: DataType::Array(Box::new(DataType::Primitive(Primitive::Int))),
        is_required: true,
    };
    assert_eq!(expected, data_type_decl);
}

#[test]
fn types_make_data_type_decl_for_optional_array() {
    let value = string_node("array[int]?");
    let data_type_decl = parse_expr("key", &value).unwrap_or_else(|_| panic!("Expect to have an OK result"));
    let expected = DataTypeDecl {
        data_type: DataType::Array(Box::new(DataType::Primitive(Primitive::Int))),
        is_required: false,
    };
    assert_eq!(expected, data_type_decl);
}

#[test]
fn types_make_data_type_decl_for_dict_with_primitives() {
    let value = string_node("dict[int, str]?");
    let data_type_decl = parse_expr("key", &value).unwrap_or_else(|_| panic!("Expect to have an OK result"));
    let expected = DataTypeDecl {
        data_type: DataType::Dict(Primitive::Int, Box::new(DataType::Primitive(Primitive::Str))),
        is_required: false,
    };
    assert_eq!(expected, data_type_decl);
}

#[test]
fn types_make_data_type_decl_for_dict_with_another_data_type() {
    let value = string_node("dict[int, array[user]]?");
    let data_type_decl = parse_expr("key", &value).unwrap_or_else(|_| panic!("Expect to have an OK result"));
    let expected = DataTypeDecl {
        data_type: DataType::Dict(
            Primitive::Int,
            Box::new(DataType::Array(Box::new(DataType::Object("user".to_string())))),
        ),
        is_required: false,
    };
    assert_eq!(expected, data_type_decl);
}

#[test]
fn types_make_data_type_decl_for_optional_object() {
    let value = string_node("date?");
    let data_type_decl = parse_expr("created_at", &value).unwrap_or_else(|_| panic!("Expect to have an OK result"));
    let expected = DataTypeDecl {
        data_type: DataType::Object("date".to_string()),
        is_required: false,
    };
    assert_eq!(expected, data_type_decl);
}

#[test]
fn types_make_data_type_decl_nested_declaration() {
    let value = DocValue::Hash(vec![
        (string_node("id"), string_node("str")),
        (string_node("updated_at"), string_node("date")),
        (string_node("is_active"), string_node("bool")),
    ]);
    let data_type_decl = parse_expr("nested_object", &value).unwrap_or_else(|_| panic!("Expect to have an OK result"));
    let expected = DataTypeDecl {
        data_type: DataType::ObjectDecl(TypeDecl {
            name: "nested_object".to_string(),
            property_decls: Vec::from([
                PropertyDecl {
                    name: "id".to_string(),
                    data_type_decl: Ok(DataTypeDecl {
                        data_type: DataType::Primitive(Primitive::Str),
                        is_required: true,
                    }),
                },
                PropertyDecl {
                    name: "updated_at".to_string(),
                    data_type_decl: Ok(DataTypeDecl {
                        data_type: DataType::Object("date".to_string()),
                        is_required: true,
                    }),
                },
                PropertyDecl {
                    name: "is_active".to_string(),
                    data_type_decl: Ok(DataTypeDecl {
                        data_type: DataType::Primitive(Primitive::Bool),
                        is_required: true,
                    }),
                },
            ]),
        }),
        is_required: true,
    };
    assert_eq!(expected, data_type_decl);
}

#[test]
fn objects_make_data_type_decl_for_str() {
    let value = string_node("str");
    let data_type_decl = parse_expr("key", &value).unwrap_or_else(|_| panic!("Expect to have an OK result"));
    let expected = DataTypeDecl {
        data_type: DataType::Primitive(Primitive::Str),
        is_required: true,
    };
    assert_eq!(expected, data_type_decl);
}

#[test]
fn objects_make_data_type_decl_for_optional_str() {
    let value = string_node("str?");
    let data_type_decl = parse_expr("key", &value).unwrap_or_else(|_| panic!("Expect to have an OK result"));
    let expected = DataTypeDecl {
        data_type: DataType::Primitive(Primitive::Str),
        is_required: false,
    };
    assert_eq!(expected, data_type_decl);
}

#[test]
fn objects_make_data_type_decl_for_array() {
    let value = string_node("array[int]");
    let data_type_decl = parse_expr("key", &value).unwrap_or_else(|_| panic!("Expect to have an OK result"));
    let expected = DataTypeDecl {
        data_type: DataType::Array(Box::new(DataType::Primitive(Primitive::Int))),
        is_required: true,
    };
    assert_eq!(expected, data_type_decl);
}

#[test]
fn objects_make_data_type_decl_for_optional_array() {
    let value = string_node("array[int]?");
    let data_type_decl = parse_expr("key", &value).unwrap_or_else(|_| panic!("Expect to have an OK result"));
    let expected = DataTypeDecl {
        data_type: DataType::Array(Box::new(DataType::Primitive(Primitive::Int))),
        is_required: false,
    };
    assert_eq!(expected, data_type_decl);
}

#[test]
fn objects_make_data_type_decl_for_dict_with_primitives() {
    let value = string_node("dict[int, str]?");
    let data_type_decl = parse_expr("key", &value).unwrap_or_else(|_| panic!("Expect to have an OK result"));
    let expected = DataTypeDecl {
        data_type: DataType::Dict(Primitive::Int, Box::new(DataType::Primitive(Primitive::Str))),
        is_required: false,
    };
    assert_eq!(expected, data_type_decl);
}

#[test]
fn objects_make_data_type_decl_for_dict_with_another_data_type() {
    let value = string_node("dict[int, array[user]]?");
    let data_type_decl = parse_expr("key", &value).unwrap_or_else(|_| panic!("Expect to have an OK result"));
    let expected = DataTypeDecl {
        data_type: DataType::Dict(
            Primitive::Int,
            Box::new(DataType::Array(Box::new(DataType::Object("user".to_string())))),
        ),
        is_required: false,
    };
    assert_eq!(expected, data_type_decl);
}

#[test]
fn objects_make_data_type_decl_for_optional_object() {
    let value = string_node("date?");
    let data_type_decl = parse_expr("created_at", &value).unwrap_or_else(|_| panic!("Expect to have an OK result"));
    let expected = DataTypeDecl {
        data_type: DataType::Object("date".to_string()),
        is_required: false,
    };
    assert_eq!(expected, data_type_decl);
}

#[test]
fn objects_make_data_type_decl_nested_declaration() {
    let value = DocValue::Hash(vec![
        (string_node("id"), string_node("str")),
        (string_node("updated_at"), string_node("date")),
        (string_node("is_active"), string_node("bool")),
    ]);
    let data_type_decl = parse_expr("nested_object", &value).unwrap_or_else(|_| panic!("Expect to have an OK result"));
    let expected = DataTypeDecl {
        data_type: DataType::ObjectDecl(TypeDecl {
            name: "nested_object".to_string(),
            property_decls: Vec::from([
                PropertyDecl {
                    name: "id".to_string(),
                    data_type_decl: Ok(DataTypeDecl {
                        data_type: DataType::Primitive(Primitive::Str),
                        is_required: true,
                    }),
                },
                PropertyDecl {
                    name: "updated_at".to_string(),
                    data_type_decl: Ok(DataTypeDecl {
                        data_type: DataType::Object("date".to_string()),
                        is_required: true,
                    }),
                },
                PropertyDecl {
                    name: "is_active".to_string(),
                    data_type_decl: Ok(DataTypeDecl {
                        data_type: DataType::Primitive(Primitive::Bool),
                        is_required: true,
                    }),
                },
            ]),
        }),
        is_required: true,
    };
    assert_eq!(expected, data_type_decl);
}

#[test]
fn empty_type_expression_fails_with_empty_declaration() {
    let value = string_node("");
    let result = parse_expr("key", &value);
    assert_eq!(Err(TypeDeclError::EmptyTypeDeclaration), result);
}

#[test]
fn leading_digit_fails_with_empty_declaration() {
    let value = string_node("1abc");
    let result = parse_expr("key", &value);
    assert_eq!(Err(TypeDeclError::EmptyTypeDeclaration), result);
}

#[test]
fn unbalanced_group_fails_with_subtype_error() {
    let value = string_node("array[int");
    let result = parse_expr("key", &value);
    assert_eq!(Err(TypeDeclError::SubtypeValuesEmptyDeclaration), result);
}

#[test]
fn empty_subtype_fails_with_subtype_error() {
    let value = string_node("array[]");
    let result = parse_expr("key", &value);
    assert_eq!(Err(TypeDeclError::SubtypeValuesEmptyDeclaration), result);
}

#[test]
fn bare_container_names_fail_with_subtype_error() {
    assert_eq!(
        Err(TypeDeclError::SubtypeValuesEmptyDeclaration),
        parse_expr("key", &string_node("array"))
    );
    assert_eq!(
        Err(TypeDeclError::SubtypeValuesEmptyDeclaration),
        parse_expr("key", &string_node("dict"))
    );
}

#[test]
fn dict_with_non_primitive_key_fails() {
    let value = string_node("dict[user, int]");
    let result = parse_expr("key", &value);
    assert_eq!(Err(TypeDeclError::UnsupportedPrimitive("user".to_string())), result);
}

#[test]
fn scalar_type_node_is_unsupported() {
    let value = DocValue::Int(42);
    let result = parse_expr("key", &value);
    assert_eq!(Err(TypeDeclError::UnsupportedTypeDeclaration), result);
}

#[test]
fn empty_nested_record_fails_with_empty_declaration() {
    let value = DocValue::Hash(Vec::new());
    let result = parse_expr("key", &value);
    assert_eq!(Err(TypeDeclError::EmptyTypeDeclaration), result);
}

#[test]
fn non_string_property_key_fails_whole_record() {
    let parser = parser_for("thing");
    let mut tracker = Tracker::new();
    let value = vec![(DocValue::Int(5), string_node("str"))];
    let result = parser.parse(&value, &mut tracker);
    assert_eq!(Err(TypeDeclError::UnsupportedKeyType), result);
}

#[test]
fn nested_record_is_required_despite_optional_children() {
    let value = DocValue::Hash(vec![(string_node("created_at"), string_node("date?"))]);
    let data_type_decl = parse_expr("outer", &value).unwrap_or_else(|_| panic!("Expect to have an OK result"));
    assert!(data_type_decl.is_required);
    match data_type_decl.data_type {
        DataType::ObjectDecl(decl) => {
            let inner = decl.property_decls[0].data_type_decl.as_ref().unwrap();
            assert!(!inner.is_required);
        }
        other => panic!("expected a nested record, got {:?}", other),
    }
}
