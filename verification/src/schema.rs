//! The schema data model: type declarations, interface declarations,
//! their error taxonomies, and the spec-level view of each.
//!
//! Exec values carry `String` and `Vec`; their mathematical views carry
//! `Seq<char>` and `Seq`.  Every parser contract in the library speaks
//! over the view types defined here.

use vstd::prelude::*;

verus! {

// ---------------------------------------------------------------------
// Type declarations
// ---------------------------------------------------------------------

/// A built-in scalar type of the type grammar.
#[derive(Debug, PartialEq, Eq, Structural, Clone, Copy)]
pub enum Primitive {
    Int,
    Double,
    Bool,
    Str,
}

/// The shape of a property's type.
#[derive(Debug, PartialEq)]
pub enum DataType {
    Primitive(Primitive),
    Array(Box<DataType>),
    /// Keys are restricted to primitives; values recurse arbitrarily.
    Dict(Primitive, Box<DataType>),
    /// A reference to a type declared elsewhere, possibly not yet seen.
    Object(String),
    /// An anonymous nested record literal.
    ObjectDecl(TypeDecl),
}

/// One named record type: its name and its properties in source order.
#[derive(Debug, PartialEq)]
pub struct TypeDecl {
    pub name: String,
    pub property_decls: Vec<PropertyDecl>,
}

/// One property; its type resolution can fail independently of its
/// siblings.
#[derive(Debug, PartialEq)]
pub struct PropertyDecl {
    pub name: String,
    pub data_type_decl: Result<DataTypeDecl, TypeDeclError>,
}

/// A property's type together with its optionality: `required` is false
/// exactly when the type expression carried a trailing `?`.
#[derive(Debug, PartialEq)]
pub struct DataTypeDecl {
    pub data_type: DataType,
    pub is_required: bool,
}

#[derive(Debug, PartialEq)]
pub enum TypeDeclError {
    ImportFailure(ImportError),
    UnsupportedTypeDeclaration,
    UnsupportedKeyType,
    EmptyTypeDeclaration,
    SubtypeValuesEmptyDeclaration,
    UnsupportedPrimitive(String),
}

/// A failed document read, reduced to its description.
#[derive(Debug, PartialEq)]
pub struct ReadError {
    pub message: String,
}

#[derive(Debug, PartialEq)]
pub enum ImportError {
    IOError(ReadError),
    InvalidInputSource,
    InvalidImportValue,
}

pub type TypeDeclResults = Vec<Result<TypeDecl, TypeDeclError>>;

// ---------------------------------------------------------------------
// Spec-level views of the type declarations
// ---------------------------------------------------------------------

pub ghost enum SpecDataType {
    Primitive(Primitive),
    Array(Box<SpecDataType>),
    Dict(Primitive, Box<SpecDataType>),
    Object(Seq<char>),
    ObjectDecl(SpecTypeDecl),
}

pub ghost struct SpecTypeDecl {
    pub name: Seq<char>,
    pub property_decls: Seq<SpecPropertyDecl>,
}

pub ghost struct SpecPropertyDecl {
    pub name: Seq<char>,
    pub data_type_decl: Result<SpecDataTypeDecl, SpecTypeDeclError>,
}

pub ghost struct SpecDataTypeDecl {
    pub data_type: SpecDataType,
    pub is_required: bool,
}

pub ghost enum SpecTypeDeclError {
    ImportFailure(SpecImportError),
    UnsupportedTypeDeclaration,
    UnsupportedKeyType,
    EmptyTypeDeclaration,
    SubtypeValuesEmptyDeclaration,
    UnsupportedPrimitive(Seq<char>),
}

pub ghost enum SpecImportError {
    IOError(Seq<char>),
    InvalidInputSource,
    InvalidImportValue,
}

pub open spec fn view_import_err(e: ImportError) -> SpecImportError {
    match e {
        ImportError::IOError(r) => SpecImportError::IOError(r.message@),
        ImportError::InvalidInputSource => SpecImportError::InvalidInputSource,
        ImportError::InvalidImportValue => SpecImportError::InvalidImportValue,
    }
}

pub open spec fn view_type_err(e: TypeDeclError) -> SpecTypeDeclError {
    match e {
        TypeDeclError::ImportFailure(ie) => SpecTypeDeclError::ImportFailure(view_import_err(ie)),
        TypeDeclError::UnsupportedTypeDeclaration => SpecTypeDeclError::UnsupportedTypeDeclaration,
        TypeDeclError::UnsupportedKeyType => SpecTypeDeclError::UnsupportedKeyType,
        TypeDeclError::EmptyTypeDeclaration => SpecTypeDeclError::EmptyTypeDeclaration,
        TypeDeclError::SubtypeValuesEmptyDeclaration => SpecTypeDeclError::SubtypeValuesEmptyDeclaration,
        TypeDeclError::UnsupportedPrimitive(s) => SpecTypeDeclError::UnsupportedPrimitive(s@),
    }
}

pub open spec fn view_data_type(d: DataType) -> SpecDataType
    decreases d,
{
    match d {
        DataType::Primitive(p) => SpecDataType::Primitive(p),
        DataType::Array(b) => SpecDataType::Array(Box::new(view_data_type(*b))),
        DataType::Dict(k, b) => SpecDataType::Dict(k, Box::new(view_data_type(*b))),
        DataType::Object(s) => SpecDataType::Object(s@),
        DataType::ObjectDecl(t) => SpecDataType::ObjectDecl(view_type_decl(t)),
    }
}

pub open spec fn view_data_type_decl(d: DataTypeDecl) -> SpecDataTypeDecl
    decreases d,
{
    SpecDataTypeDecl { data_type: view_data_type(d.data_type), is_required: d.is_required }
}

pub open spec fn view_prop(p: PropertyDecl) -> SpecPropertyDecl
    decreases p,
{
    SpecPropertyDecl {
        name: p.name@,
        data_type_decl: match p.data_type_decl {
            Ok(d) => Ok(view_data_type_decl(d)),
            Err(e) => Err(view_type_err(e)),
        },
    }
}

pub open spec fn view_props(props: Seq<PropertyDecl>) -> Seq<SpecPropertyDecl>
    decreases props,
{
    if props.len() == 0 {
        Seq::empty()
    } else {
        view_props(props.drop_last()).push(view_prop(props.last()))
    }
}

pub open spec fn view_type_decl(t: TypeDecl) -> SpecTypeDecl
    decreases t,
{
    SpecTypeDecl { name: t.name@, property_decls: view_props(t.property_decls@) }
}

/// View of a shape-resolution outcome.
pub open spec fn view_dt_result(r: Result<DataType, TypeDeclError>) -> Result<SpecDataType, SpecTypeDeclError> {
    match r {
        Ok(d) => Ok(view_data_type(d)),
        Err(e) => Err(view_type_err(e)),
    }
}

/// View of one type-expression parse outcome.
pub open spec fn view_dtd_result(r: Result<DataTypeDecl, TypeDeclError>) -> Result<SpecDataTypeDecl, SpecTypeDeclError> {
    match r {
        Ok(d) => Ok(view_data_type_decl(d)),
        Err(e) => Err(view_type_err(e)),
    }
}

/// View of one per-declaration parse outcome.
pub open spec fn view_type_result(r: Result<TypeDecl, TypeDeclError>) -> Result<SpecTypeDecl, SpecTypeDeclError> {
    match r {
        Ok(t) => Ok(view_type_decl(t)),
        Err(e) => Err(view_type_err(e)),
    }
}

/// View of a whole result list in order.
pub open spec fn view_type_results(rs: Seq<Result<TypeDecl, TypeDeclError>>) -> Seq<Result<SpecTypeDecl, SpecTypeDeclError>>
    decreases rs.len(),
{
    if rs.len() == 0 {
        Seq::empty()
    } else {
        view_type_results(rs.drop_last()).push(view_type_result(rs.last()))
    }
}

// ---------------------------------------------------------------------
// Interface declarations
// ---------------------------------------------------------------------

#[derive(Debug, PartialEq, Eq, Structural, Clone, Copy)]
pub enum HttpMethod {
    Get,
    Post,
    Put,
    Delete,
    Patch,
    Head,
}

/// A response status key: an exact three-digit code, or a one-digit
/// class prefix (`4xx`).
#[derive(Debug, PartialEq, Eq, Structural, Clone, Copy, Hash)]
pub enum StatusCode {
    Fixed(u16),
    Prefix(u16),
}

/// The payload of an interface: query properties for read-style methods,
/// body properties for write-style methods.
#[derive(Debug, PartialEq)]
pub enum HttpPayload {
    Query(Vec<PropertyDecl>),
    Body(Vec<PropertyDecl>),
}

/// Status-coded responses in first-occurrence order.
pub type HttpResponses = Option<Vec<(StatusCode, TypeDecl)>>;

#[derive(Debug, PartialEq)]
pub struct ApiSpec {
    pub method: HttpMethod,
    pub payload: Option<HttpPayload>,
    pub responses: HttpResponses,
}

#[derive(Debug, PartialEq)]
pub enum InterfaceSpec {
    Api(ApiSpec),
}

/// One parsed interface: its path template, the `{...}` parameters
/// extracted from it in order, and the method/payload/response contract.
#[derive(Debug, PartialEq)]
pub struct InterfaceDecl {
    pub ident: String,
    pub params: Vec<String>,
    pub api_spec: InterfaceSpec,
}

#[derive(Debug, PartialEq)]
pub enum InterfaceDeclError {
    ImportFailure(ImportError),
    BodyNotAllowed,
    QueryNotAllowed,
    InvalidKey,
    InvalidStatusCode,
    TypeNotFound(String),
    InvalidResponseDeclaration,
    InvalidInterfaceDeclaration,
    InvalidIdent,
    EmptyParam,
    InvalidMethod,
    InvalidQuery,
    InvalidBody,
    InvalidResponseTypeDeclaration,
}

pub type InterfaceDeclResults = Vec<Result<InterfaceDecl, InterfaceDeclError>>;

/// One use of a type name that was not yet declared at that point: the
/// kind of site, and where the site stands.
#[derive(Debug, PartialEq, Eq, Structural, Clone, Copy)]
pub enum UnknownType {
    InTypeDeclaration(usize, usize),
    InPayload(usize),
    InResponse(StatusCode, usize),
}

/// Where a type expression is being parsed from; determines the site
/// recorded for any unknown name it references.
#[derive(Debug, PartialEq, Eq, Structural, Clone, Copy)]
pub enum TypeDeclSource {
    Type(usize),
    InterfaceInput(usize),
    InterfaceOutput(usize, StatusCode),
}

/// The unknown-reference site recorded for names referenced from `src`.
pub open spec fn spec_site_of(src: TypeDeclSource) -> UnknownType {
    match src {
        TypeDeclSource::Type(i) => UnknownType::InTypeDeclaration(i, 0),
        TypeDeclSource::InterfaceInput(i) => UnknownType::InPayload(i),
        TypeDeclSource::InterfaceOutput(i, code) => UnknownType::InResponse(code, i),
    }
}

/// Exec twin of [`spec_site_of`].
pub fn site_of(src: &TypeDeclSource) -> (r: UnknownType)
    ensures
        r == spec_site_of(*src),
{
    match src {
        TypeDeclSource::Type(i) => UnknownType::InTypeDeclaration(*i, 0),
        TypeDeclSource::InterfaceInput(i) => UnknownType::InPayload(*i),
        TypeDeclSource::InterfaceOutput(i, code) => UnknownType::InResponse(*code, *i),
    }
}

// ---------------------------------------------------------------------
// Spec-level views of the interface declarations
// ---------------------------------------------------------------------

pub ghost enum SpecHttpPayload {
    Query(Seq<SpecPropertyDecl>),
    Body(Seq<SpecPropertyDecl>),
}

pub ghost struct SpecApiSpec {
    pub method: HttpMethod,
    pub payload: Option<SpecHttpPayload>,
    pub responses: Option<Seq<(StatusCode, SpecTypeDecl)>>,
}

pub ghost enum SpecInterfaceSpec {
    Api(SpecApiSpec),
}

pub ghost struct SpecInterfaceDecl {
    pub ident: Seq<char>,
    pub params: Seq<Seq<char>>,
    pub api_spec: SpecInterfaceSpec,
}

pub ghost enum SpecInterfaceDeclError {
    ImportFailure(SpecImportError),
    BodyNotAllowed,
    QueryNotAllowed,
    InvalidKey,
    InvalidStatusCode,
    TypeNotFound(Seq<char>),
    InvalidResponseDeclaration,
    InvalidInterfaceDeclaration,
    InvalidIdent,
    EmptyParam,
    InvalidMethod,
    InvalidQuery,
    InvalidBody,
    InvalidResponseTypeDeclaration,
}

pub open spec fn view_strings(ss: Seq<String>) -> Seq<Seq<char>>
    decreases ss.len(),
{
    if ss.len() == 0 {
        Seq::empty()
    } else {
        view_strings(ss.drop_last()).push(ss.last()@)
    }
}

pub open spec fn view_payload(p: HttpPayload) -> SpecHttpPayload {
    match p {
        HttpPayload::Query(props) => SpecHttpPayload::Query(view_props(props@)),
        HttpPayload::Body(props) => SpecHttpPayload::Body(view_props(props@)),
    }
}

pub open spec fn view_responses(rs: Seq<(StatusCode, TypeDecl)>) -> Seq<(StatusCode, SpecTypeDecl)>
    decreases rs.len(),
{
    if rs.len() == 0 {
        Seq::empty()
    } else {
        view_responses(rs.drop_last()).push((rs.last().0, view_type_decl(rs.last().1)))
    }
}

pub open spec fn view_iface_err(e: InterfaceDeclError) -> SpecInterfaceDeclError {
    match e {
        InterfaceDeclError::ImportFailure(ie) => SpecInterfaceDeclError::ImportFailure(view_import_err(ie)),
        InterfaceDeclError::BodyNotAllowed => SpecInterfaceDeclError::BodyNotAllowed,
        InterfaceDeclError::QueryNotAllowed => SpecInterfaceDeclError::QueryNotAllowed,
        InterfaceDeclError::InvalidKey => SpecInterfaceDeclError::InvalidKey,
        InterfaceDeclError::InvalidStatusCode => SpecInterfaceDeclError::InvalidStatusCode,
        InterfaceDeclError::TypeNotFound(s) => SpecInterfaceDeclError::TypeNotFound(s@),
        InterfaceDeclError::InvalidResponseDeclaration => SpecInterfaceDeclError::InvalidResponseDeclaration,
        InterfaceDeclError::InvalidInterfaceDeclaration => SpecInterfaceDeclError::InvalidInterfaceDeclaration,
        InterfaceDeclError::InvalidIdent => SpecInterfaceDeclError::InvalidIdent,
        InterfaceDeclError::EmptyParam => SpecInterfaceDeclError::EmptyParam,
        InterfaceDeclError::InvalidMethod => SpecInterfaceDeclError::InvalidMethod,
        InterfaceDeclError::InvalidQuery => SpecInterfaceDeclError::InvalidQuery,
        InterfaceDeclError::InvalidBody => SpecInterfaceDeclError::InvalidBody,
        InterfaceDeclError::InvalidResponseTypeDeclaration => SpecInterfaceDeclError::InvalidResponseTypeDeclaration,
    }
}

pub open spec fn view_iface_decl(d: InterfaceDecl) -> SpecInterfaceDecl {
    SpecInterfaceDecl {
        ident: d.ident@,
        params: view_strings(d.params@),
        api_spec: match d.api_spec {
            InterfaceSpec::Api(api) => SpecInterfaceSpec::Api(SpecApiSpec {
                method: api.method,
                payload: match api.payload {
                    Some(p) => Some(view_payload(p)),
                    None => None,
                },
                responses: match api.responses {
                    Some(rs) => Some(view_responses(rs@)),
                    None => None,
                },
            }),
        },
    }
}

pub open spec fn view_iface_result(r: Result<InterfaceDecl, InterfaceDeclError>) -> Result<SpecInterfaceDecl, SpecInterfaceDeclError> {
    match r {
        Ok(d) => Ok(view_iface_decl(d)),
        Err(e) => Err(view_iface_err(e)),
    }
}

pub open spec fn view_iface_results(rs: Seq<Result<InterfaceDecl, InterfaceDeclError>>) -> Seq<Result<SpecInterfaceDecl, SpecInterfaceDeclError>>
    decreases rs.len(),
{
    if rs.len() == 0 {
        Seq::empty()
    } else {
        view_iface_results(rs.drop_last()).push(view_iface_result(rs.last()))
    }
}

// ---------------------------------------------------------------------
// Hosts, versioning, and the assembled schema
// ---------------------------------------------------------------------

/// One deployment host: an environment name and its address.
#[derive(Debug, PartialEq)]
pub struct Host {
    pub env: String,
    pub address: String,
}

pub type Hosts = Vec<Host>;

#[derive(Debug, PartialEq, Eq, Structural, Clone, Copy)]
pub enum VersioningFormat {
    Headers,
}

/// The API versioning policy: its format and, for header-based
/// versioning, the header's name.
#[derive(Debug, PartialEq)]
pub struct Versioning {
    pub format: VersioningFormat,
    pub header: Option<String>,
}

pub ghost struct SpecVersioning {
    pub format: VersioningFormat,
    pub header: Option<Seq<char>>,
}

pub open spec fn view_versioning(v: Versioning) -> SpecVersioning {
    SpecVersioning {
        format: v.format,
        header: match v.header {
            Some(h) => Some(h@),
            None => None,
        },
    }
}

pub open spec fn view_hosts(hs: Seq<Host>) -> Seq<(Seq<char>, Seq<char>)>
    decreases hs.len(),
{
    if hs.len() == 0 {
        Seq::empty()
    } else {
        view_hosts(hs.drop_last()).push((hs.last().env@, hs.last().address@))
    }
}

/// The assembled schema: hosts, versioning policy, and the per-item
/// outcomes of the type and interface parses.
#[derive(Debug, PartialEq)]
pub struct Schema {
    pub hosts: Hosts,
    pub versioning: Versioning,
    pub types: TypeDeclResults,
    pub interfaces: InterfaceDeclResults,
}

// ---------------------------------------------------------------------
// Status-code keys
// ---------------------------------------------------------------------

/// The decimal digit character for `n` (`n < 10`).
pub open spec fn spec_digit(n: nat) -> char {
    if n == 0 {
        '0'
    } else if n == 1 {
        '1'
    } else if n == 2 {
        '2'
    } else if n == 3 {
        '3'
    } else if n == 4 {
        '4'
    } else if n == 5 {
        '5'
    } else if n == 6 {
        '6'
    } else if n == 7 {
        '7'
    } else if n == 8 {
        '8'
    } else {
        '9'
    }
}

/// Decimal rendering of `n`, without leading zeros (`0` renders as "0").
pub open spec fn spec_dec_str(n: nat) -> Seq<char>
    decreases n,
{
    if n < 10 {
        seq![spec_digit(n)]
    } else {
        spec_dec_str(n / 10).push(spec_digit(n % 10))
    }
}

/// The mapping-key text of a status code: the decimal code, or the class
/// digit followed by `xx`.
pub open spec fn spec_status_key(sc: StatusCode) -> Seq<char> {
    match sc {
        StatusCode::Fixed(v) => spec_dec_str(v as nat),
        StatusCode::Prefix(v) => spec_dec_str(v as nat) + "xx"@,
    }
}

fn digit_str(d: u16) -> (r: &'static str)
    requires
        d < 10,
    ensures
        r@ =~= seq![spec_digit(d as nat)],
{
    proof {
        reveal_strlit("0");
        reveal_strlit("1");
        reveal_strlit("2");
        reveal_strlit("3");
        reveal_strlit("4");
        reveal_strlit("5");
        reveal_strlit("6");
        reveal_strlit("7");
        reveal_strlit("8");
        reveal_strlit("9");
    }
    match d {
        0 => "0",
        1 => "1",
        2 => "2",
        3 => "3",
        4 => "4",
        5 => "5",
        6 => "6",
        7 => "7",
        8 => "8",
        _ => "9",
    }
}

/// Decimal rendering of a status-code number.
fn dec_str_u16(n: u16) -> (r: String)
    ensures
        r@ == spec_dec_str(n as nat),
    decreases n,
{
    if n < 10 {
        digit_str(n).to_owned()
    } else {
        let prefix = dec_str_u16(n / 10);
        let r = prefix.concat(digit_str(n % 10));
        proof {
            assert(r@ =~= spec_dec_str((n / 10) as nat).push(spec_digit((n % 10) as nat)));
        }
        r
    }
}

impl StatusCode {
    /// The text under which this status stands as a response mapping key.
    pub fn as_key(&self) -> (r: String)
        ensures
            r@ == spec_status_key(*self),
    {
        match self {
            StatusCode::Fixed(val) => dec_str_u16(*val),
            StatusCode::Prefix(val) => dec_str_u16(*val).concat("xx"),
        }
    }
}

// ---------------------------------------------------------------------
// Error descriptions
// ---------------------------------------------------------------------

impl ImportError {
    /// One-line description of the failure.
    pub fn default_fmt(&self) -> (r: String)
        ensures
            match self {
                ImportError::IOError(e) => r@ == "I/O error while loading imports: "@ + e.message@,
                ImportError::InvalidInputSource => r@ == "Input source should be a hashmap"@,
                ImportError::InvalidImportValue => r@ == "Import statement should be string"@,
            },
    {
        match self {
            ImportError::IOError(err) => "I/O error while loading imports: ".to_owned().concat(err.message.as_str()),
            ImportError::InvalidInputSource => "Input source should be a hashmap".to_owned(),
            ImportError::InvalidImportValue => "Import statement should be string".to_owned(),
        }
    }
}

impl DataType {
    /// A copy with the same view.
    pub fn duplicate(&self) -> (r: DataType)
        ensures
            view_data_type(r) == view_data_type(*self),
        decreases *self, 0int,
    {
        match self {
            DataType::Primitive(p) => DataType::Primitive(*p),
            DataType::Array(b) => DataType::Array(Box::new((**b).duplicate())),
            DataType::Dict(k, b) => DataType::Dict(*k, Box::new((**b).duplicate())),
            DataType::Object(s) => DataType::Object(s.clone()),
            DataType::ObjectDecl(t) => DataType::ObjectDecl(t.duplicate()),
        }
    }
}

impl TypeDeclError {
    /// A copy with the same view.
    pub fn dup_err(&self) -> (r: TypeDeclError)
        ensures
            view_type_err(r) == view_type_err(*self),
    {
        match self {
            TypeDeclError::ImportFailure(ie) => TypeDeclError::ImportFailure(ie.duplicate()),
            TypeDeclError::UnsupportedTypeDeclaration => TypeDeclError::UnsupportedTypeDeclaration,
            TypeDeclError::UnsupportedKeyType => TypeDeclError::UnsupportedKeyType,
            TypeDeclError::EmptyTypeDeclaration => TypeDeclError::EmptyTypeDeclaration,
            TypeDeclError::SubtypeValuesEmptyDeclaration => TypeDeclError::SubtypeValuesEmptyDeclaration,
            TypeDeclError::UnsupportedPrimitive(s) => TypeDeclError::UnsupportedPrimitive(s.clone()),
        }
    }
}

impl PropertyDecl {
    /// A copy with the same view.
    pub fn duplicate(&self) -> (r: PropertyDecl)
        ensures
            view_prop(r) == view_prop(*self),
        decreases *self, 0int,
    {
        PropertyDecl {
            name: self.name.clone(),
            data_type_decl: match &self.data_type_decl {
                Ok(d) => Ok(
                    DataTypeDecl { data_type: d.data_type.duplicate(), is_required: d.is_required },
                ),
                Err(e) => Err(e.dup_err()),
            },
        }
    }
}

/// A copy of a property list with the same view.
pub fn duplicate_props(props: &Vec<PropertyDecl>) -> (r: Vec<PropertyDecl>)
    ensures
        view_props(r@) == view_props(props@),
{
    let mut r: Vec<PropertyDecl> = Vec::new();
    let n = props.len();
    let mut i: usize = 0;
    proof {
        assert(props@.subrange(0, 0) =~= Seq::<PropertyDecl>::empty());
        assert(view_props(r@) =~= view_props(props@.subrange(0, 0)));
    }
    while i < n
        invariant
            i <= n,
            n == props@.len(),
            view_props(r@) == view_props(props@.subrange(0, i as int)),
        decreases n - i,
    {
        let ghost rv = r@;
        let ghost pre = props@.subrange(0, i as int);
        let ghost post = props@.subrange(0, i as int + 1);
        r.push(props[i].duplicate());
        proof {
            assert(r@.drop_last() =~= rv);
            assert(post.drop_last() =~= pre);
            assert(post.last() == props@[i as int]);
        }
        i += 1;
    }
    proof {
        assert(props@.subrange(0, n as int) =~= props@);
    }
    r
}

impl TypeDecl {
    /// A copy with the same view.
    pub fn duplicate(&self) -> (r: TypeDecl)
        ensures
            view_type_decl(r) == view_type_decl(*self),
        decreases *self, 1int,
    {
        let mut props: Vec<PropertyDecl> = Vec::new();
        let n = self.property_decls.len();
        let mut i: usize = 0;
        proof {
            assert(self.property_decls@.subrange(0, 0) =~= Seq::<PropertyDecl>::empty());
            assert(view_props(props@) =~= view_props(self.property_decls@.subrange(0, 0)));
        }
        while i < n
            invariant
                i <= n,
                n == self.property_decls@.len(),
                view_props(props@) == view_props(self.property_decls@.subrange(0, i as int)),
            decreases n - i,
        {
            let ghost rv = props@;
            let ghost pre = self.property_decls@.subrange(0, i as int);
            let ghost post = self.property_decls@.subrange(0, i as int + 1);
            proof {
                assert(decreases_to!(*self => self.property_decls));
                assert(decreases_to!(self.property_decls => self.property_decls@));
                assert(decreases_to!(self.property_decls@ => self.property_decls@[i as int]));
            }
            props.push(self.property_decls[i].duplicate());
            proof {
                assert(props@.drop_last() =~= rv);
                assert(post.drop_last() =~= pre);
                assert(post.last() == self.property_decls@[i as int]);
            }
            i += 1;
        }
        proof {
            assert(self.property_decls@.subrange(0, n as int) =~= self.property_decls@);
        }
        TypeDecl { name: self.name.clone(), property_decls: props }
    }
}

impl ImportError {
    /// A copy with the same view.
    pub fn duplicate(&self) -> (r: ImportError)
        ensures
            view_import_err(r) == view_import_err(*self),
    {
        match self {
            ImportError::IOError(e) => ImportError::IOError(ReadError { message: e.message.clone() }),
            ImportError::InvalidInputSource => ImportError::InvalidInputSource,
            ImportError::InvalidImportValue => ImportError::InvalidImportValue,
        }
    }
}

impl TypeDeclError {
    /// One-line description of the failure.
    pub fn default_fmt(&self) -> (r: String)
        ensures
            match self {
                TypeDeclError::ImportFailure(ie) => r@ == "Import failed: "@ + spec_import_err_text(*ie),
                TypeDeclError::UnsupportedTypeDeclaration => r@ == "This type declaration format is not supported."@,
                TypeDeclError::UnsupportedKeyType => r@ == "Key type must be string."@,
                TypeDeclError::EmptyTypeDeclaration => r@ == "Type declaration cannot be empty."@,
                TypeDeclError::SubtypeValuesEmptyDeclaration => r@ == "Subtype declaration cannot be empty."@,
                TypeDeclError::UnsupportedPrimitive(v) => r@ == "Primitive "@ + v@ + " not supported."@,
            },
    {
        match self {
            TypeDeclError::ImportFailure(import_error) => "Import failed: ".to_owned().concat(
                import_error.default_fmt().as_str(),
            ),
            TypeDeclError::UnsupportedTypeDeclaration => "This type declaration format is not supported.".to_owned(),
            TypeDeclError::UnsupportedKeyType => "Key type must be string.".to_owned(),
            TypeDeclError::EmptyTypeDeclaration => "Type declaration cannot be empty.".to_owned(),
            TypeDeclError::SubtypeValuesEmptyDeclaration => "Subtype declaration cannot be empty.".to_owned(),
            TypeDeclError::UnsupportedPrimitive(value) => "Primitive ".to_owned().concat(value.as_str()).concat(
                " not supported.",
            ),
        }
    }
}

/// The description [`ImportError::default_fmt`] returns.
pub open spec fn spec_import_err_text(e: ImportError) -> Seq<char> {
    match e {
        ImportError::IOError(r) => "I/O error while loading imports: "@ + r.message@,
        ImportError::InvalidInputSource => "Input source should be a hashmap"@,
        ImportError::InvalidImportValue => "Import statement should be string"@,
    }
}

} // verus!
