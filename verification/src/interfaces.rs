//! The interface parser: one HTTP interface declaration per mapping,
//! with a path template, path parameters extracted from it, a method,
//! method-dependent payload legality, and status-coded responses
//! resolved against the already-parsed type declarations.

use vstd::prelude::*;

use crate::doc::{DocMap, DocValue, spec_map_get, spec_map_has};
use crate::schema::{
    HttpMethod, InterfaceDeclError, SpecApiSpec, SpecHttpPayload, SpecInterfaceDecl, SpecInterfaceDeclError,
    SpecInterfaceSpec, SpecTypeDecl, StatusCode, TypeDecl, TypeDeclError, TypeDeclResults, TypeDeclSource,
    spec_site_of, spec_status_key, view_iface_err, view_props, view_strings, view_type_decl,
};
use crate::schema::{
    ApiSpec, HttpPayload, HttpResponses, ImportError, InterfaceDecl, InterfaceDeclResults, InterfaceSpec,
    SpecImportError, view_iface_decl, view_iface_results, view_import_err, view_payload, view_responses,
};
use crate::tracker::{SpecTrackerOp, Tracker, lemma_tr_apply_all_concat, tr_apply_all};
use crate::types::{TypeParser, spec_parse_type_decl};

verus! {

// ---------------------------------------------------------------------
// Path parameters
// ---------------------------------------------------------------------

/// Scan the path template for `{name}` captures: `{` opens a capture,
/// `}` closes it and yields the captured span; a close with nothing
/// captured (including a stray `}`) is the empty-parameter failure, and
/// an unclosed capture at the end of the path is discarded.
pub open spec fn scan_params(s: Seq<char>, i: int, reading: bool, cur: Seq<char>, acc: Seq<Seq<char>>) -> Option<
    Seq<Seq<char>>,
>
    decreases s.len() - i,
{
    if i < 0 || i >= s.len() {
        Some(acc)
    } else if s[i] == '{' {
        scan_params(s, i + 1, true, cur, acc)
    } else if s[i] == '}' {
        if cur.len() == 0 {
            None
        } else {
            scan_params(s, i + 1, false, Seq::empty(), acc.push(cur))
        }
    } else if reading {
        scan_params(s, i + 1, reading, cur.push(s[i]), acc)
    } else {
        scan_params(s, i + 1, reading, cur, acc)
    }
}

pub open spec fn spec_get_params(s: Seq<char>) -> Option<Seq<Seq<char>>> {
    scan_params(s, 0, false, Seq::empty(), Seq::empty())
}

// ---------------------------------------------------------------------
// Methods and status codes
// ---------------------------------------------------------------------

pub open spec fn spec_method_of(m: Seq<char>) -> Option<HttpMethod> {
    if m == "get"@ {
        Some(HttpMethod::Get)
    } else if m == "post"@ {
        Some(HttpMethod::Post)
    } else if m == "put"@ {
        Some(HttpMethod::Put)
    } else if m == "delete"@ {
        Some(HttpMethod::Delete)
    } else if m == "head"@ {
        Some(HttpMethod::Head)
    } else if m == "patch"@ {
        Some(HttpMethod::Patch)
    } else {
        None
    }
}

pub open spec fn is_digit_char(c: char) -> bool {
    '0' <= c && c <= '9'
}

/// The numeric value of a digit character.
pub open spec fn digit_val(c: char) -> int {
    c as int - '0' as int
}

/// The status code a response-mapping key denotes: a three-digit string
/// or integer is a fixed code, a digit followed by `xx` is a class
/// prefix, and anything else is malformed.
pub open spec fn spec_status_of_key(k: DocValue) -> Result<StatusCode, SpecInterfaceDeclError> {
    match k {
        DocValue::Str(s) => {
            let v = s@;
            if v.len() == 3 && is_digit_char(v[0]) && is_digit_char(v[1]) && is_digit_char(v[2]) {
                Ok(StatusCode::Fixed((digit_val(v[0]) * 100 + digit_val(v[1]) * 10 + digit_val(v[2])) as u16))
            } else if v.len() == 3 && is_digit_char(v[0]) && v[1] == 'x' && v[2] == 'x' {
                Ok(StatusCode::Prefix(digit_val(v[0]) as u16))
            } else {
                Err(SpecInterfaceDeclError::InvalidStatusCode)
            }
        },
        DocValue::Int(n) => if 100 <= n <= 999 {
            Ok(StatusCode::Fixed(n as u16))
        } else {
            Err(SpecInterfaceDeclError::InvalidStatusCode)
        },
        _ => Err(SpecInterfaceDeclError::InvalidKey),
    }
}

/// Whether a response-mapping key looks like a status code: a string
/// with a leading digit, or a non-negative integer.
pub open spec fn spec_status_like(k: DocValue) -> bool {
    match k {
        DocValue::Str(s) => s@.len() > 0 && is_digit_char(s@[0]),
        DocValue::Int(n) => n >= 0,
        _ => false,
    }
}

pub open spec fn spec_has_custom_codes(entries: Seq<(DocValue, DocValue)>) -> bool {
    exists|i: int| 0 <= i < entries.len() && spec_status_like((#[trigger] entries[i]).0)
}

// ---------------------------------------------------------------------
// Resolving names against the parsed type declarations
// ---------------------------------------------------------------------

/// First successfully parsed type declaration with the given name.
pub open spec fn spec_find_type(types: Seq<Result<TypeDecl, TypeDeclError>>, name: Seq<char>) -> Option<TypeDecl>
    decreases types.len(),
{
    if types.len() == 0 {
        None
    } else {
        match types[0] {
            Ok(td) => if td.name@ == name {
                Some(td)
            } else {
                spec_find_type(types.drop_first(), name)
            },
            Err(_) => spec_find_type(types.drop_first(), name),
        }
    }
}

/// The response entry a named reference resolves to: the referenced
/// type's properties under the reference's own name.
pub open spec fn spec_named_response(name: Seq<char>, td: TypeDecl) -> SpecTypeDecl {
    SpecTypeDecl { name: name, property_decls: view_props(td.property_decls@) }
}

// ---------------------------------------------------------------------
// Responses
// ---------------------------------------------------------------------

/// First entry with this status code.
pub open spec fn resp_find(rs: Seq<(StatusCode, SpecTypeDecl)>, sc: StatusCode) -> Option<int>
    decreases rs.len(),
{
    if rs.len() == 0 {
        None
    } else if rs[0].0 == sc {
        Some(0)
    } else {
        match resp_find(rs.drop_first(), sc) {
            Some(i) => Some(i + 1),
            None => None,
        }
    }
}

/// Bind a status code, replacing an earlier binding in place.
pub open spec fn resp_insert(rs: Seq<(StatusCode, SpecTypeDecl)>, sc: StatusCode, td: SpecTypeDecl) -> Seq<
    (StatusCode, SpecTypeDecl),
> {
    match resp_find(rs, sc) {
        Some(i) => rs.update(i, (sc, td)),
        None => rs.push((sc, td)),
    }
}

/// One response value: a mapping parses as an anonymous response type
/// named after the status key; a string resolves against the declared
/// types.
pub open spec fn spec_response_value(v: DocValue, sc: StatusCode, types: Seq<Result<TypeDecl, TypeDeclError>>) -> (
    Result<SpecTypeDecl, SpecInterfaceDeclError>,
    Seq<SpecTrackerOp>,
) {
    match v {
        DocValue::Hash(h) => {
            let (tr, tops) = spec_parse_type_decl(
                spec_status_key(sc),
                h@,
                spec_site_of(TypeDeclSource::InterfaceOutput(0, sc)),
            );
            (
                match tr {
                    Ok(td) => Ok(td),
                    Err(_) => Err(SpecInterfaceDeclError::InvalidResponseTypeDeclaration),
                },
                tops,
            )
        },
        DocValue::Str(name) => (
            match spec_find_type(types, name@) {
                Some(td) => Ok(spec_named_response(name@, td)),
                None => Err(SpecInterfaceDeclError::TypeNotFound(name@)),
            },
            Seq::empty(),
        ),
        _ => (Err(SpecInterfaceDeclError::InvalidResponseDeclaration), Seq::empty()),
    }
}

/// A response mapping whose keys carry status codes: every key must be a
/// status code, every value a response type; the first malformed entry
/// aborts.
pub open spec fn spec_custom_responses(
    entries: Seq<(DocValue, DocValue)>,
    types: Seq<Result<TypeDecl, TypeDeclError>>,
) -> (Result<Seq<(StatusCode, SpecTypeDecl)>, SpecInterfaceDeclError>, Seq<SpecTrackerOp>)
    decreases entries.len(),
{
    if entries.len() == 0 {
        (Ok(Seq::empty()), Seq::empty())
    } else {
        let (pr, pops) = spec_custom_responses(entries.drop_last(), types);
        match pr {
            Err(e) => (Err(e), pops),
            Ok(rs) => match spec_status_of_key(entries.last().0) {
                Err(e) => (Err(e), pops),
                Ok(sc) => {
                    let (vr, vops) = spec_response_value(entries.last().1, sc, types);
                    match vr {
                        Err(e) => (Err(e), pops + vops),
                        Ok(td) => (Ok(resp_insert(rs, sc, td)), pops + vops),
                    }
                },
            },
        }
    }
}

/// A response mapping: keys that look like status codes make it a map of
/// coded responses; otherwise the whole mapping is one implicit `200`
/// response body.
pub open spec fn spec_responses_from(
    entries: Seq<(DocValue, DocValue)>,
    types: Seq<Result<TypeDecl, TypeDeclError>>,
) -> (Result<Option<Seq<(StatusCode, SpecTypeDecl)>>, SpecInterfaceDeclError>, Seq<SpecTrackerOp>) {
    if spec_has_custom_codes(entries) {
        let (cr, cops) = spec_custom_responses(entries, types);
        (
            match cr {
                Ok(rs) => Ok(Some(rs)),
                Err(e) => Err(e),
            },
            cops,
        )
    } else {
        let sc = StatusCode::Fixed(200);
        let (tr, tops) = spec_parse_type_decl(
            spec_status_key(sc),
            entries,
            spec_site_of(TypeDeclSource::InterfaceOutput(0, sc)),
        );
        (
            match tr {
                Ok(td) => Ok(Some(Seq::empty().push((sc, td)))),
                Err(_) => Err(SpecInterfaceDeclError::InvalidResponseTypeDeclaration),
            },
            tops,
        )
    }
}

/// The `response` key: absent means no responses; a string names a
/// declared type and stands as the single `200` response; a mapping is
/// parsed by shape.
pub open spec fn spec_get_response(
    entries: Seq<(DocValue, DocValue)>,
    types: Seq<Result<TypeDecl, TypeDeclError>>,
) -> (Result<Option<Seq<(StatusCode, SpecTypeDecl)>>, SpecInterfaceDeclError>, Seq<SpecTrackerOp>) {
    match spec_map_get(entries, "response"@) {
        None => (Ok(None), Seq::empty()),
        Some(DocValue::Hash(h)) => spec_responses_from(h@, types),
        Some(DocValue::Str(name)) => (
            match spec_find_type(types, name@) {
                Some(td) => Ok(
                    Some(Seq::empty().push((StatusCode::Fixed(200), spec_named_response(name@, td)))),
                ),
                None => Err(SpecInterfaceDeclError::TypeNotFound(name@)),
            },
            Seq::empty(),
        ),
        Some(_) => (Err(SpecInterfaceDeclError::InvalidResponseDeclaration), Seq::empty()),
    }
}

// ---------------------------------------------------------------------
// Payloads
// ---------------------------------------------------------------------

/// One payload key (`query` or `body`): a mapping parsed as a property
/// list.
pub open spec fn spec_payload_props(v: DocValue, key: Seq<char>) -> (
    Result<Seq<crate::schema::SpecPropertyDecl>, ()>,
    Seq<SpecTrackerOp>,
) {
    match v {
        DocValue::Hash(m) => {
            let (tr, tops) = spec_parse_type_decl(key, m@, spec_site_of(TypeDeclSource::InterfaceInput(0)));
            (
                match tr {
                    Ok(td) => Ok(td.property_decls),
                    Err(_) => Err(()),
                },
                tops,
            )
        },
        _ => (Err(()), Seq::empty()),
    }
}

/// Payload legality by method: read-style methods may carry a query and
/// never a body; write-style methods may carry a body and never a query;
/// delete carries neither, the query check coming first.
pub open spec fn spec_get_payload(method: HttpMethod, entries: Seq<(DocValue, DocValue)>) -> (
    Result<Option<SpecHttpPayload>, SpecInterfaceDeclError>,
    Seq<SpecTrackerOp>,
) {
    match method {
        HttpMethod::Get | HttpMethod::Head => {
            if spec_map_has(entries, "body"@) {
                (Err(SpecInterfaceDeclError::BodyNotAllowed), Seq::empty())
            } else {
                match spec_map_get(entries, "query"@) {
                    None => (Ok(None), Seq::empty()),
                    Some(v) => {
                        let (pr, pops) = spec_payload_props(v, "query"@);
                        (
                            match pr {
                                Ok(props) => Ok(Some(SpecHttpPayload::Query(props))),
                                Err(_) => Err(SpecInterfaceDeclError::InvalidQuery),
                            },
                            pops,
                        )
                    },
                }
            }
        },
        HttpMethod::Post | HttpMethod::Put | HttpMethod::Patch => {
            if spec_map_has(entries, "query"@) {
                (Err(SpecInterfaceDeclError::QueryNotAllowed), Seq::empty())
            } else {
                match spec_map_get(entries, "body"@) {
                    None => (Ok(None), Seq::empty()),
                    Some(v) => {
                        let (pr, pops) = spec_payload_props(v, "body"@);
                        (
                            match pr {
                                Ok(props) => Ok(Some(SpecHttpPayload::Body(props))),
                                Err(_) => Err(SpecInterfaceDeclError::InvalidBody),
                            },
                            pops,
                        )
                    },
                }
            }
        },
        HttpMethod::Delete => {
            if spec_map_has(entries, "query"@) {
                (Err(SpecInterfaceDeclError::QueryNotAllowed), Seq::empty())
            } else if spec_map_has(entries, "body"@) {
                (Err(SpecInterfaceDeclError::BodyNotAllowed), Seq::empty())
            } else {
                (Ok(None), Seq::empty())
            }
        },
    }
}

// ---------------------------------------------------------------------
// One interface declaration
// ---------------------------------------------------------------------

/// Parse one interface declaration mapping: path, parameters, method,
/// payload, responses, in that order.
pub open spec fn spec_parse_interface(
    entries: Seq<(DocValue, DocValue)>,
    types: Seq<Result<TypeDecl, TypeDeclError>>,
) -> (Result<SpecInterfaceDecl, SpecInterfaceDeclError>, Seq<SpecTrackerOp>) {
    match spec_map_get(entries, "path"@) {
        Some(DocValue::Str(p)) => match spec_get_params(p@) {
            None => (Err(SpecInterfaceDeclError::EmptyParam), Seq::empty()),
            Some(params) => match spec_map_get(entries, "method"@) {
                Some(DocValue::Str(mm)) => match spec_method_of(mm@) {
                    None => (Err(SpecInterfaceDeclError::InvalidMethod), Seq::empty()),
                    Some(method) => {
                        let (pres, pops) = spec_get_payload(method, entries);
                        match pres {
                            Err(e) => (Err(e), pops),
                            Ok(payload) => {
                                let (rres, rops) = spec_get_response(entries, types);
                                match rres {
                                    Err(e) => (Err(e), pops + rops),
                                    Ok(responses) => (
                                        Ok(
                                            SpecInterfaceDecl {
                                                ident: p@,
                                                params: params,
                                                api_spec: SpecInterfaceSpec::Api(
                                                    SpecApiSpec { method, payload, responses },
                                                ),
                                            },
                                        ),
                                        pops + rops,
                                    ),
                                }
                            },
                        }
                    },
                },
                _ => (Err(SpecInterfaceDeclError::InvalidMethod), Seq::empty()),
            },
        },
        _ => (Err(SpecInterfaceDeclError::InvalidIdent), Seq::empty()),
    }
}

// ---------------------------------------------------------------------
// Executable pieces
// ---------------------------------------------------------------------

/// Extract the ordered `{name}` parameters of a path template.
#[verifier::loop_isolation(false)]
pub fn get_params(ident: &str) -> (r: Result<Vec<String>, InterfaceDeclError>)
    ensures
        match r {
            Ok(ps) => spec_get_params(ident@) == Some(view_strings(ps@)),
            Err(e) => spec_get_params(ident@) is None && e == InterfaceDeclError::EmptyParam,
        },
{
    let n = ident.unicode_len();
    let mut i: usize = 0;
    let mut reading = false;
    let mut cur = String::new();
    let mut acc: Vec<String> = Vec::new();
    proof {
        assert(view_strings(acc@) =~= Seq::<Seq<char>>::empty());
    }
    while i < n
        invariant
            i <= n,
            n == ident@.len(),
            scan_params(ident@, 0, false, Seq::empty(), Seq::empty()) == scan_params(
                ident@,
                i as int,
                reading,
                cur@,
                view_strings(acc@),
            ),
        decreases n - i,
    {
        let c = ident.get_char(i);
        if c == '{' {
            reading = true;
        } else if c == '}' {
            if cur.as_str().unicode_len() == 0 {
                return Err(InterfaceDeclError::EmptyParam);
            }
            let ghost accv = acc@;
            acc.push(cur);
            proof {
                assert(acc@.drop_last() =~= accv);
            }
            cur = String::new();
            reading = false;
        } else if reading {
            let piece = ident.substring_char(i, i + 1);
            proof {
                assert(piece@ =~= seq![ident@[i as int]]);
                assert(cur@ + piece@ =~= cur@.push(ident@[i as int]));
            }
            cur.append(piece);
        }
        i += 1;
    }
    Ok(acc)
}

/// Extract and map the `method` key.
pub fn get_method(entries: &DocMap) -> (r: Result<HttpMethod, InterfaceDeclError>)
    ensures
        match r {
            Ok(m) => (match spec_map_get(entries@, "method"@) {
                Some(DocValue::Str(mm)) => spec_method_of(mm@) == Some(m),
                _ => false,
            }),
            Err(e) => e == InterfaceDeclError::InvalidMethod && (match spec_map_get(entries@, "method"@) {
                Some(DocValue::Str(mm)) => spec_method_of(mm@) is None,
                _ => true,
            }),
        },
{
    match crate::doc::map_get(entries, "method") {
        Some(DocValue::Str(mm)) => {
            let m = mm.as_str();
            if crate::doc::str_eq(m, "get") {
                Ok(HttpMethod::Get)
            } else if crate::doc::str_eq(m, "post") {
                Ok(HttpMethod::Post)
            } else if crate::doc::str_eq(m, "put") {
                Ok(HttpMethod::Put)
            } else if crate::doc::str_eq(m, "delete") {
                Ok(HttpMethod::Delete)
            } else if crate::doc::str_eq(m, "head") {
                Ok(HttpMethod::Head)
            } else if crate::doc::str_eq(m, "patch") {
                Ok(HttpMethod::Patch)
            } else {
                Err(InterfaceDeclError::InvalidMethod)
            }
        },
        _ => Err(InterfaceDeclError::InvalidMethod),
    }
}

fn is_digit_exec(c: char) -> (r: bool)
    ensures
        r == is_digit_char(c),
{
    '0' <= c && c <= '9'
}

/// The status code a response-mapping key denotes.
pub fn status_of_key(k: &DocValue) -> (r: Result<StatusCode, InterfaceDeclError>)
    ensures
        match r {
            Ok(sc) => spec_status_of_key(*k) == Ok::<StatusCode, SpecInterfaceDeclError>(sc),
            Err(e) => spec_status_of_key(*k) == Err::<StatusCode, SpecInterfaceDeclError>(view_iface_err(e)),
        },
{
    match k {
        DocValue::Str(s) => {
            let v = s.as_str();
            if v.unicode_len() != 3 {
                return Err(InterfaceDeclError::InvalidStatusCode);
            }
            let c0 = v.get_char(0);
            let c1 = v.get_char(1);
            let c2 = v.get_char(2);
            if is_digit_exec(c0) && is_digit_exec(c1) && is_digit_exec(c2) {
                let d0 = (c0 as u32 - '0' as u32) as u16;
                let d1 = (c1 as u32 - '0' as u32) as u16;
                let d2 = (c2 as u32 - '0' as u32) as u16;
                Ok(StatusCode::Fixed(d0 * 100 + d1 * 10 + d2))
            } else if is_digit_exec(c0) && c1 == 'x' && c2 == 'x' {
                let d0 = (c0 as u32 - '0' as u32) as u16;
                Ok(StatusCode::Prefix(d0))
            } else {
                Err(InterfaceDeclError::InvalidStatusCode)
            }
        },
        DocValue::Int(n) => {
            if 100 <= *n && *n <= 999 {
                Ok(StatusCode::Fixed(*n as u16))
            } else {
                Err(InterfaceDeclError::InvalidStatusCode)
            }
        },
        _ => Err(InterfaceDeclError::InvalidKey),
    }
}

/// Whether any key of a response mapping looks like a status code.
fn has_custom_codes(entries: &DocMap) -> (r: bool)
    ensures
        r == spec_has_custom_codes(entries@),
{
    let n = entries.len();
    let mut i: usize = 0;
    while i < n
        invariant
            i <= n,
            n == entries@.len(),
            forall|j: int| 0 <= j < i ==> !spec_status_like((#[trigger] entries@[j]).0),
        decreases n - i,
    {
        match &entries[i].0 {
            DocValue::Str(s) => {
                if s.as_str().unicode_len() > 0 {
                    if is_digit_exec(s.as_str().get_char(0)) {
                        proof {
                            assert(spec_status_like(entries@[i as int].0));
                        }
                        return true;
                    }
                }
            },
            DocValue::Int(v) => {
                if *v >= 0 {
                    proof {
                        assert(spec_status_like(entries@[i as int].0));
                    }
                    return true;
                }
            },
            _ => {},
        }
        i += 1;
    }
    false
}

/// First successfully parsed type declaration with the given name.
fn find_type<'a>(types: &'a TypeDeclResults, name: &str) -> (r: Option<&'a TypeDecl>)
    ensures
        match r {
            Some(td) => spec_find_type(types@, name@) == Some(*td),
            None => spec_find_type(types@, name@) is None,
        },
{
    let n = types.len();
    let mut i: usize = 0;
    proof {
        assert(types@.subrange(0, n as int) =~= types@);
    }
    while i < n
        invariant
            i <= n,
            n == types@.len(),
            spec_find_type(types@, name@) == spec_find_type(types@.subrange(i as int, n as int), name@),
        decreases n - i,
    {
        let ghost pre = types@.subrange(i as int, n as int);
        proof {
            assert(pre[0] == types@[i as int]);
            assert(pre.drop_first() =~= types@.subrange(i as int + 1, n as int));
        }
        match &types[i] {
            Ok(td) => {
                if crate::doc::str_eq(td.name.as_str(), name) {
                    return Some(td);
                }
            },
            Err(_) => {},
        }
        i += 1;
    }
    proof {
        assert(types@.subrange(n as int, n as int).len() == 0);
    }
    None
}

/// `view_responses` is the element-wise view.
proof fn lemma_view_responses_index(rs: Seq<(StatusCode, TypeDecl)>)
    ensures
        view_responses(rs).len() == rs.len(),
        forall|i: int|
            0 <= i < rs.len() ==> (#[trigger] view_responses(rs)[i]) == (rs[i].0, view_type_decl(rs[i].1)),
    decreases rs.len(),
{
    if rs.len() > 0 {
        lemma_view_responses_index(rs.drop_last());
        assert(forall|i: int| 0 <= i < rs.len() - 1 ==> (#[trigger] rs.drop_last()[i]) == rs[i]);
    }
}

/// What a successful response search guarantees.
proof fn lemma_resp_find_props(rs: Seq<(StatusCode, SpecTypeDecl)>, sc: StatusCode)
    ensures
        match resp_find(rs, sc) {
            Some(i) => 0 <= i < rs.len() && rs[i].0 == sc && (forall|j: int|
                0 <= j < i ==> (#[trigger] rs[j].0) != sc),
            None => forall|j: int| 0 <= j < rs.len() ==> (#[trigger] rs[j].0) != sc,
        },
    decreases rs.len(),
{
    if rs.len() > 0 && rs[0].0 != sc {
        lemma_resp_find_props(rs.drop_first(), sc);
        match resp_find(rs.drop_first(), sc) {
            Some(i) => {
                assert forall|j: int| 0 <= j < i + 1 implies (#[trigger] rs[j].0) != sc by {
                    if j > 0 {
                        assert(rs.drop_first()[j - 1] == rs[j]);
                    }
                }
            },
            None => {
                assert forall|j: int| 0 <= j < rs.len() implies (#[trigger] rs[j].0) != sc by {
                    if j > 0 {
                        assert(rs.drop_first()[j - 1] == rs[j]);
                    }
                }
            },
        }
    }
}

/// The first matching entry, given no earlier entry matches.
proof fn lemma_resp_find_at(rs: Seq<(StatusCode, SpecTypeDecl)>, sc: StatusCode, i: int)
    requires
        0 <= i < rs.len(),
        rs[i].0 == sc,
        forall|j: int| 0 <= j < i ==> (#[trigger] rs[j].0) != sc,
    ensures
        resp_find(rs, sc) == Some(i),
    decreases rs.len(),
{
    if i > 0 {
        lemma_resp_find_at(rs.drop_first(), sc, i - 1);
    }
}

proof fn lemma_resp_find_none(rs: Seq<(StatusCode, SpecTypeDecl)>, sc: StatusCode)
    requires
        forall|j: int| 0 <= j < rs.len() ==> (#[trigger] rs[j].0) != sc,
    ensures
        resp_find(rs, sc) is None,
    decreases rs.len(),
{
    if rs.len() > 0 {
        lemma_resp_find_none(rs.drop_first(), sc);
    }
}

/// Bind a status code in the response list, replacing in place.
fn resp_insert_exec(rs: &mut Vec<(StatusCode, TypeDecl)>, sc: StatusCode, td: TypeDecl)
    ensures
        view_responses(final(rs)@) == resp_insert(view_responses(old(rs)@), sc, view_type_decl(td)),
{
    let ghost rv = view_responses(old(rs)@);
    proof {
        lemma_view_responses_index(rs@);
    }
    let n = rs.len();
    let mut i: usize = 0;
    while i < n
        invariant
            i <= n,
            n == rs@.len(),
            rs@ == old(rs)@,
            forall|j: int| 0 <= j < i ==> (#[trigger] rv[j].0) != sc,
            rv == view_responses(rs@),
            rv.len() == n,
            forall|j: int| 0 <= j < n ==> (#[trigger] rv[j]) == (rs@[j].0, view_type_decl(rs@[j].1)),
        decreases n - i,
    {
        if rs[i].0 == sc {
            proof {
                lemma_resp_find_at(rv, sc, i as int);
            }
            rs.set(i, (sc, td));
            proof {
                lemma_view_responses_index(rs@);
                assert(view_responses(rs@) =~= rv.update(i as int, (sc, view_type_decl(td))));
            }
            return ;
        }
        i += 1;
    }
    proof {
        lemma_resp_find_none(rv, sc);
    }
    let ghost rsv = rs@;
    rs.push((sc, td));
    proof {
        assert(rs@.drop_last() =~= rsv);
        assert(view_responses(rs@) == view_responses(rsv).push((sc, view_type_decl(td))));
    }
}

/// One response value (see [`spec_response_value`]).
fn response_value(v: &DocValue, sc: StatusCode, types: &TypeDeclResults, types_usage: &mut Tracker) -> (r: Result<
    TypeDecl,
    InterfaceDeclError,
>)
    ensures
        ({
            let (vr, vops) = spec_response_value(*v, sc, types@);
            &&& final(types_usage)@ == tr_apply_all(old(types_usage)@, vops)
            &&& vr == match r {
                Ok(td) => Ok::<SpecTypeDecl, SpecInterfaceDeclError>(view_type_decl(td)),
                Err(e) => Err::<SpecTypeDecl, SpecInterfaceDeclError>(view_iface_err(e)),
            }
        }),
{
    proof {
        assert(tr_apply_all(old(types_usage)@, Seq::<SpecTrackerOp>::empty()) == old(types_usage)@);
    }
    match v {
        DocValue::Hash(h) => {
            let parser = TypeParser { key: sc.as_key(), source: TypeDeclSource::InterfaceOutput(0, sc) };
            match parser.parse(h, types_usage) {
                Ok(td) => Ok(td),
                Err(_) => Err(InterfaceDeclError::InvalidResponseTypeDeclaration),
            }
        },
        DocValue::Str(name) => {
            match find_type(types, name.as_str()) {
                Some(td) => {
                    let props = crate::schema::duplicate_props(&td.property_decls);
                    Ok(TypeDecl { name: name.clone(), property_decls: props })
                },
                None => Err(InterfaceDeclError::TypeNotFound(name.clone())),
            }
        },
        _ => Err(InterfaceDeclError::InvalidResponseDeclaration),
    }
}

/// A response mapping whose keys carry status codes, left to right.
#[verifier::loop_isolation(false)]
fn custom_responses(entries: &DocMap, types: &TypeDeclResults, types_usage: &mut Tracker) -> (r: Result<
    Vec<(StatusCode, TypeDecl)>,
    InterfaceDeclError,
>)
    ensures
        ({
            let (cr, cops) = spec_custom_responses(entries@, types@);
            &&& final(types_usage)@ == tr_apply_all(old(types_usage)@, cops)
            &&& cr == match r {
                Ok(rs) => Ok::<Seq<(StatusCode, SpecTypeDecl)>, SpecInterfaceDeclError>(view_responses(rs@)),
                Err(e) => Err::<Seq<(StatusCode, SpecTypeDecl)>, SpecInterfaceDeclError>(view_iface_err(e)),
            }
        }),
{
    let ghost st0 = types_usage@;
    let mut rs: Vec<(StatusCode, TypeDecl)> = Vec::new();
    proof {
        assert(entries@.subrange(0, 0) =~= Seq::<(DocValue, DocValue)>::empty());
        assert(view_responses(rs@) =~= Seq::<(StatusCode, SpecTypeDecl)>::empty());
    }
    let n = entries.len();
    let mut i: usize = 0;
    while i < n
        invariant
            i <= n,
            n == entries@.len(),
            ({
                let (cr, cops) = spec_custom_responses(entries@.subrange(0, i as int), types@);
                &&& cr == Ok::<Seq<(StatusCode, SpecTypeDecl)>, SpecInterfaceDeclError>(view_responses(rs@))
                &&& types_usage@ == tr_apply_all(st0, cops)
            }),
        decreases n - i,
    {
        let ghost pre = entries@.subrange(0, i as int);
        let ghost post = entries@.subrange(0, i as int + 1);
        proof {
            assert(post.drop_last() =~= pre);
            assert(post.last() == entries@[i as int]);
        }
        let sc = match status_of_key(&entries[i].0) {
            Ok(sc) => sc,
            Err(e) => {
                proof {
                    lemma_custom_responses_err_extends(entries@, i as int + 1, types@);
                }
                return Err(e);
            },
        };
        let ghost pops = spec_custom_responses(pre, types@).1;
        let td = match response_value(&entries[i].1, sc, types, types_usage) {
            Ok(td) => td,
            Err(e) => {
                proof {
                    let vops = spec_response_value(entries@[i as int].1, sc, types@).1;
                    lemma_tr_apply_all_concat(st0, pops, vops);
                    lemma_custom_responses_err_extends(entries@, i as int + 1, types@);
                }
                return Err(e);
            },
        };
        proof {
            let vops = spec_response_value(entries@[i as int].1, sc, types@).1;
            lemma_tr_apply_all_concat(st0, pops, vops);
        }
        resp_insert_exec(&mut rs, sc, td);
        i += 1;
    }
    proof {
        assert(entries@.subrange(0, n as int) =~= entries@);
    }
    Ok(rs)
}

/// A malformed entry keeps its failure, whatever follows.
proof fn lemma_custom_responses_err_extends(
    entries: Seq<(DocValue, DocValue)>,
    i: int,
    types: Seq<Result<TypeDecl, TypeDeclError>>,
)
    requires
        0 <= i <= entries.len(),
        spec_custom_responses(entries.subrange(0, i), types).0 is Err,
    ensures
        spec_custom_responses(entries, types) == spec_custom_responses(entries.subrange(0, i), types),
    decreases entries.len() - i,
{
    if i < entries.len() {
        assert(entries.subrange(0, i + 1).drop_last() =~= entries.subrange(0, i));
        assert(entries.subrange(0, i + 1).len() != 0);
        lemma_custom_responses_err_extends(entries, i + 1, types);
    } else {
        assert(entries.subrange(0, i) =~= entries);
    }
}

/// A response mapping (see [`spec_responses_from`]).
fn responses_from(entries: &DocMap, types: &TypeDeclResults, types_usage: &mut Tracker) -> (r: Result<
    HttpResponses,
    InterfaceDeclError,
>)
    ensures
        ({
            let (rr, rops) = spec_responses_from(entries@, types@);
            &&& final(types_usage)@ == tr_apply_all(old(types_usage)@, rops)
            &&& rr == match r {
                Ok(o) => Ok::<Option<Seq<(StatusCode, SpecTypeDecl)>>, SpecInterfaceDeclError>(
                    match o {
                        Some(rs) => Some(view_responses(rs@)),
                        None => None,
                    },
                ),
                Err(e) => Err::<Option<Seq<(StatusCode, SpecTypeDecl)>>, SpecInterfaceDeclError>(view_iface_err(e)),
            }
        }),
{
    if has_custom_codes(entries) {
        match custom_responses(entries, types, types_usage) {
            Ok(rs) => Ok(Some(rs)),
            Err(e) => Err(e),
        }
    } else {
        let sc = StatusCode::Fixed(200);
        let parser = TypeParser { key: sc.as_key(), source: TypeDeclSource::InterfaceOutput(0, sc) };
        match parser.parse(entries, types_usage) {
            Ok(td) => {
                let mut rs: Vec<(StatusCode, TypeDecl)> = Vec::new();
                rs.push((sc, td));
                proof {
                    assert(rs@.drop_last() =~= Seq::<(StatusCode, TypeDecl)>::empty());
                    assert(view_responses(Seq::<(StatusCode, TypeDecl)>::empty()) =~= Seq::<
                        (StatusCode, SpecTypeDecl),
                    >::empty());
                }
                Ok(Some(rs))
            },
            Err(_) => Err(InterfaceDeclError::InvalidResponseTypeDeclaration),
        }
    }
}

/// The `response` key (see [`spec_get_response`]).
fn get_response(entries: &DocMap, types: &TypeDeclResults, types_usage: &mut Tracker) -> (r: Result<
    HttpResponses,
    InterfaceDeclError,
>)
    ensures
        ({
            let (rr, rops) = spec_get_response(entries@, types@);
            &&& final(types_usage)@ == tr_apply_all(old(types_usage)@, rops)
            &&& rr == match r {
                Ok(o) => Ok::<Option<Seq<(StatusCode, SpecTypeDecl)>>, SpecInterfaceDeclError>(
                    match o {
                        Some(rs) => Some(view_responses(rs@)),
                        None => None,
                    },
                ),
                Err(e) => Err::<Option<Seq<(StatusCode, SpecTypeDecl)>>, SpecInterfaceDeclError>(view_iface_err(e)),
            }
        }),
{
    proof {
        assert(tr_apply_all(old(types_usage)@, Seq::<SpecTrackerOp>::empty()) == old(types_usage)@);
    }
    match crate::doc::map_get(entries, "response") {
        None => Ok(None),
        Some(DocValue::Hash(h)) => responses_from(h, types, types_usage),
        Some(DocValue::Str(name)) => {
            match find_type(types, name.as_str()) {
                Some(td) => {
                    let props = crate::schema::duplicate_props(&td.property_decls);
                    let mut rs: Vec<(StatusCode, TypeDecl)> = Vec::new();
                    rs.push((StatusCode::Fixed(200), TypeDecl { name: name.clone(), property_decls: props }));
                    proof {
                        assert(rs@.drop_last() =~= Seq::<(StatusCode, TypeDecl)>::empty());
                        assert(view_responses(Seq::<(StatusCode, TypeDecl)>::empty()) =~= Seq::<
                            (StatusCode, SpecTypeDecl),
                        >::empty());
                    }
                    Ok(Some(rs))
                },
                None => Err(InterfaceDeclError::TypeNotFound(name.clone())),
            }
        },
        Some(_) => Err(InterfaceDeclError::InvalidResponseDeclaration),
    }
}

/// Method-dependent payload legality (see [`spec_get_payload`]).
fn get_payload(method: &HttpMethod, entries: &DocMap, types_usage: &mut Tracker) -> (r: Result<
    Option<HttpPayload>,
    InterfaceDeclError,
>)
    ensures
        ({
            let (pr, pops) = spec_get_payload(*method, entries@);
            &&& final(types_usage)@ == tr_apply_all(old(types_usage)@, pops)
            &&& pr == match r {
                Ok(o) => Ok::<Option<SpecHttpPayload>, SpecInterfaceDeclError>(
                    match o {
                        Some(p) => Some(view_payload(p)),
                        None => None,
                    },
                ),
                Err(e) => Err::<Option<SpecHttpPayload>, SpecInterfaceDeclError>(view_iface_err(e)),
            }
        }),
{
    proof {
        assert(tr_apply_all(old(types_usage)@, Seq::<SpecTrackerOp>::empty()) == old(types_usage)@);
    }
    match method {
        HttpMethod::Get | HttpMethod::Head => {
            if crate::doc::map_has(entries, "body") {
                return Err(InterfaceDeclError::BodyNotAllowed);
            }
            match crate::doc::map_get(entries, "query") {
                None => Ok(None),
                Some(v) => match v {
                    DocValue::Hash(m) => {
                        let parser = TypeParser {
                            key: "query".to_owned(),
                            source: TypeDeclSource::InterfaceInput(0),
                        };
                        match parser.parse(m, types_usage) {
                            Ok(td) => Ok(Some(HttpPayload::Query(td.property_decls))),
                            Err(_) => Err(InterfaceDeclError::InvalidQuery),
                        }
                    },
                    _ => Err(InterfaceDeclError::InvalidQuery),
                },
            }
        },
        HttpMethod::Post | HttpMethod::Put | HttpMethod::Patch => {
            if crate::doc::map_has(entries, "query") {
                return Err(InterfaceDeclError::QueryNotAllowed);
            }
            match crate::doc::map_get(entries, "body") {
                None => Ok(None),
                Some(v) => match v {
                    DocValue::Hash(m) => {
                        let parser = TypeParser {
                            key: "body".to_owned(),
                            source: TypeDeclSource::InterfaceInput(0),
                        };
                        match parser.parse(m, types_usage) {
                            Ok(td) => Ok(Some(HttpPayload::Body(td.property_decls))),
                            Err(_) => Err(InterfaceDeclError::InvalidBody),
                        }
                    },
                    _ => Err(InterfaceDeclError::InvalidBody),
                },
            }
        },
        HttpMethod::Delete => {
            if crate::doc::map_has(entries, "query") {
                return Err(InterfaceDeclError::QueryNotAllowed);
            }
            if crate::doc::map_has(entries, "body") {
                return Err(InterfaceDeclError::BodyNotAllowed);
            }
            Ok(None)
        },
    }
}

/// Parse one interface declaration mapping (see [`spec_parse_interface`]).
pub fn parse_interface(entries: &DocMap, types: &TypeDeclResults, types_usage: &mut Tracker) -> (r: Result<
    InterfaceDecl,
    InterfaceDeclError,
>)
    ensures
        ({
            let (sr, ops) = spec_parse_interface(entries@, types@);
            &&& final(types_usage)@ == tr_apply_all(old(types_usage)@, ops)
            &&& sr == match r {
                Ok(d) => Ok::<SpecInterfaceDecl, SpecInterfaceDeclError>(view_iface_decl(d)),
                Err(e) => Err::<SpecInterfaceDecl, SpecInterfaceDeclError>(view_iface_err(e)),
            }
        }),
{
    let ghost st0 = types_usage@;
    proof {
        assert(tr_apply_all(st0, Seq::<SpecTrackerOp>::empty()) == st0);
    }
    let ident = match crate::doc::map_get(entries, "path") {
        Some(DocValue::Str(p)) => p.clone(),
        _ => {
            return Err(InterfaceDeclError::InvalidIdent);
        },
    };
    let params = match get_params(ident.as_str()) {
        Ok(ps) => ps,
        Err(e) => {
            return Err(e);
        },
    };
    let method = match get_method(entries) {
        Ok(m) => m,
        Err(e) => {
            return Err(e);
        },
    };
    let payload = match get_payload(&method, entries, types_usage) {
        Ok(p) => p,
        Err(e) => {
            return Err(e);
        },
    };
    let ghost pops = spec_get_payload(method, entries@).1;
    let responses = match get_response(entries, types, types_usage) {
        Ok(rs) => rs,
        Err(e) => {
            proof {
                lemma_tr_apply_all_concat(st0, pops, spec_get_response(entries@, types@).1);
            }
            return Err(e);
        },
    };
    proof {
        lemma_tr_apply_all_concat(st0, pops, spec_get_response(entries@, types@).1);
    }
    Ok(
        InterfaceDecl {
            ident,
            params,
            api_spec: InterfaceSpec::Api(ApiSpec { method, payload, responses }),
        },
    )
}

// ---------------------------------------------------------------------
// Whole sources
// ---------------------------------------------------------------------

/// Parse the items of a source that is itself a list of declarations: a
/// non-mapping item is one per-item failure; an item carrying `_import`
/// is skipped.
pub open spec fn spec_parse_list_items(items: Seq<DocValue>, types: Seq<Result<TypeDecl, TypeDeclError>>) -> (
    Seq<Result<SpecInterfaceDecl, SpecInterfaceDeclError>>,
    Seq<SpecTrackerOp>,
)
    decreases items.len(),
{
    if items.len() == 0 {
        (Seq::empty(), Seq::empty())
    } else {
        let (rs, ops) = spec_parse_list_items(items.drop_last(), types);
        match items.last() {
            DocValue::Hash(m) => if spec_map_has(m@, "_import"@) {
                (rs, ops)
            } else {
                let (r, rops) = spec_parse_interface(m@, types);
                (rs.push(r), ops + rops)
            },
            _ => (rs.push(Err(SpecInterfaceDeclError::InvalidInterfaceDeclaration)), ops),
        }
    }
}

/// Parse the items under a `declarations` key: a non-mapping item is
/// dropped; an item carrying `_import` is skipped.
pub open spec fn spec_parse_decl_items(items: Seq<DocValue>, types: Seq<Result<TypeDecl, TypeDeclError>>) -> (
    Seq<Result<SpecInterfaceDecl, SpecInterfaceDeclError>>,
    Seq<SpecTrackerOp>,
)
    decreases items.len(),
{
    if items.len() == 0 {
        (Seq::empty(), Seq::empty())
    } else {
        let (rs, ops) = spec_parse_decl_items(items.drop_last(), types);
        match items.last() {
            DocValue::Hash(m) => if spec_map_has(m@, "_import"@) {
                (rs, ops)
            } else {
                let (r, rops) = spec_parse_interface(m@, types);
                (rs.push(r), ops + rops)
            },
            _ => (rs, ops),
        }
    }
}

/// Parse one composed source: a list of declarations, or a mapping whose
/// `declarations` key holds one; anything else is a single malformed
/// declaration.
pub open spec fn spec_parse_source(src: DocValue, types: Seq<Result<TypeDecl, TypeDeclError>>) -> (
    Seq<Result<SpecInterfaceDecl, SpecInterfaceDeclError>>,
    Seq<SpecTrackerOp>,
) {
    match src {
        DocValue::Array(items) => spec_parse_list_items(items@, types),
        DocValue::Hash(m) => match spec_map_get(m@, "declarations"@) {
            Some(DocValue::Array(items)) => spec_parse_decl_items(items@, types),
            _ => (seq![Err(SpecInterfaceDeclError::InvalidInterfaceDeclaration)], Seq::empty()),
        },
        _ => (seq![Err(SpecInterfaceDeclError::InvalidInterfaceDeclaration)], Seq::empty()),
    }
}

/// Parse a list of composed sources in order; a failed import becomes
/// one per-item failure.
pub open spec fn spec_parse_iface_sources(
    sources: Seq<Result<DocValue, ImportError>>,
    types: Seq<Result<TypeDecl, TypeDeclError>>,
) -> (Seq<Result<SpecInterfaceDecl, SpecInterfaceDeclError>>, Seq<SpecTrackerOp>)
    decreases sources.len(),
{
    if sources.len() == 0 {
        (Seq::empty(), Seq::empty())
    } else {
        let (rs, ops) = spec_parse_iface_sources(sources.drop_last(), types);
        match sources.last() {
            Err(ie) => (rs.push(Err(SpecInterfaceDeclError::ImportFailure(view_import_err(ie)))), ops),
            Ok(src) => {
                let (irs, iops) = spec_parse_source(src, types);
                (rs + irs, ops + iops)
            },
        }
    }
}

/// What parsing an interfaces section yields: the main node's own
/// declarations first, then each imported fragment's, in order.
pub open spec fn spec_parse_interfaces(
    main: DocValue,
    imported: Seq<Result<DocValue, ImportError>>,
    types: Seq<Result<TypeDecl, TypeDeclError>>,
) -> (Result<Seq<Result<SpecInterfaceDecl, SpecInterfaceDeclError>>, SpecInterfaceDeclError>, Seq<SpecTrackerOp>) {
    match main {
        DocValue::Hash(_) => {
            let (rs, ops) = spec_parse_iface_sources(seq![Ok(main)] + imported, types);
            (Ok(rs), ops)
        },
        _ => (
            Err(SpecInterfaceDeclError::ImportFailure(SpecImportError::InvalidInputSource)),
            Seq::empty(),
        ),
    }
}

/// Parse one declaration item in place: skip `_import` carriers, parse
/// the rest.
#[verifier::loop_isolation(false)]
fn parse_items(
    items: &Vec<DocValue>,
    keep_malformed: bool,
    types: &TypeDeclResults,
    types_usage: &mut Tracker,
    out: &mut InterfaceDeclResults,
)
    ensures
        ({
            let (irs, iops) = if keep_malformed {
                spec_parse_list_items(items@, types@)
            } else {
                spec_parse_decl_items(items@, types@)
            };
            &&& view_iface_results(final(out)@) == view_iface_results(old(out)@) + irs
            &&& final(types_usage)@ == tr_apply_all(old(types_usage)@, iops)
        }),
{
    let ghost st0 = types_usage@;
    let ghost out0 = view_iface_results(out@);
    let n = items.len();
    let mut i: usize = 0;
    proof {
        assert(items@.subrange(0, 0) =~= Seq::<DocValue>::empty());
        assert(out0 + Seq::<Result<SpecInterfaceDecl, SpecInterfaceDeclError>>::empty() =~= out0);
    }
    while i < n
        invariant
            i <= n,
            n == items@.len(),
            ({
                let (irs, iops) = if keep_malformed {
                    spec_parse_list_items(items@.subrange(0, i as int), types@)
                } else {
                    spec_parse_decl_items(items@.subrange(0, i as int), types@)
                };
                &&& view_iface_results(out@) == out0 + irs
                &&& types_usage@ == tr_apply_all(st0, iops)
            }),
        decreases n - i,
    {
        let ghost pre = items@.subrange(0, i as int);
        let ghost post = items@.subrange(0, i as int + 1);
        proof {
            assert(post.drop_last() =~= pre);
            assert(post.last() == items@[i as int]);
        }
        let ghost pops = if keep_malformed {
            spec_parse_list_items(pre, types@).1
        } else {
            spec_parse_decl_items(pre, types@).1
        };
        match &items[i] {
            DocValue::Hash(m) => {
                if !crate::doc::map_has(m, "_import") {
                    let r = parse_interface(m, types, types_usage);
                    proof {
                        lemma_tr_apply_all_concat(st0, pops, spec_parse_interface(m@, types@).1);
                    }
                    let ghost outv = out@;
                    out.push(r);
                    proof {
                        assert(out@.drop_last() =~= outv);
                    }
                }
            },
            _ => {
                if keep_malformed {
                    let ghost outv = out@;
                    out.push(Err(InterfaceDeclError::InvalidInterfaceDeclaration));
                    proof {
                        assert(out@.drop_last() =~= outv);
                    }
                }
            },
        }
        i += 1;
    }
    proof {
        assert(items@.subrange(0, n as int) =~= items@);
    }
}

/// Parse one composed source (see [`spec_parse_source`]).
fn parse_source(src: &DocValue, types: &TypeDeclResults, types_usage: &mut Tracker, out: &mut InterfaceDeclResults)
    ensures
        ({
            let (irs, iops) = spec_parse_source(*src, types@);
            &&& view_iface_results(final(out)@) == view_iface_results(old(out)@) + irs
            &&& final(types_usage)@ == tr_apply_all(old(types_usage)@, iops)
        }),
{
    proof {
        assert(tr_apply_all(old(types_usage)@, Seq::<SpecTrackerOp>::empty()) == old(types_usage)@);
    }
    match src {
        DocValue::Array(items) => {
            parse_items(items, true, types, types_usage, out);
        },
        DocValue::Hash(m) => {
            let mut found = false;
            match crate::doc::map_get(m, "declarations") {
                Some(DocValue::Array(items)) => {
                    found = true;
                    parse_items(items, false, types, types_usage, out);
                },
                _ => {},
            }
            if !found {
                let ghost outv = out@;
                out.push(Err(InterfaceDeclError::InvalidInterfaceDeclaration));
                proof {
                    assert(out@.drop_last() =~= outv);
                    assert(view_iface_results(out@) =~= view_iface_results(outv) + seq![
                        Err::<SpecInterfaceDecl, SpecInterfaceDeclError>(
                            SpecInterfaceDeclError::InvalidInterfaceDeclaration,
                        ),
                    ]);
                }
            }
        },
        _ => {
            let ghost outv = out@;
            out.push(Err(InterfaceDeclError::InvalidInterfaceDeclaration));
            proof {
                assert(out@.drop_last() =~= outv);
                assert(view_iface_results(out@) =~= view_iface_results(outv) + seq![
                    Err::<SpecInterfaceDecl, SpecInterfaceDeclError>(
                        SpecInterfaceDeclError::InvalidInterfaceDeclaration,
                    ),
                ]);
            }
        },
    }
}

/// Parser for the `interfaces` section of a schema: the main node plus
/// its already-loaded imported fragments, resolved against the parsed
/// type declarations.  Owns the usage tracker for the interfaces phase.
pub struct InterfacesParser {
    pub types_usage: Tracker,
    pub types: TypeDeclResults,
}

impl InterfacesParser {
    /// Parse the main interfaces node and its imported fragments, in
    /// order (see [`spec_parse_interfaces`]).
    #[verifier::loop_isolation(false)]
    pub fn parse(&mut self, main: &DocValue, imported: &Vec<Result<DocValue, ImportError>>) -> (r: Result<
        InterfaceDeclResults,
        InterfaceDeclError,
    >)
        ensures
            final(self).types == old(self).types,
            ({
                let (sr, ops) = spec_parse_interfaces(*main, imported@, old(self).types@);
                &&& final(self).types_usage@ == tr_apply_all(old(self).types_usage@, ops)
                &&& sr == match r {
                    Ok(v) => Ok::<Seq<Result<SpecInterfaceDecl, SpecInterfaceDeclError>>, SpecInterfaceDeclError>(
                        view_iface_results(v@),
                    ),
                    Err(e) => Err::<Seq<Result<SpecInterfaceDecl, SpecInterfaceDeclError>>, SpecInterfaceDeclError>(
                        view_iface_err(e),
                    ),
                }
            }),
    {
        let ghost st0 = self.types_usage@;
        match main {
            DocValue::Hash(_) => {},
            _ => {
                return Err(InterfaceDeclError::ImportFailure(ImportError::InvalidInputSource));
            },
        }
        let ghost sources = seq![Ok::<DocValue, ImportError>(*main)] + imported@;
        let mut results: InterfaceDeclResults = Vec::new();
        proof {
            let s1 = sources.subrange(0, 1);
            assert(s1.drop_last() =~= Seq::<Result<DocValue, ImportError>>::empty());
            assert(s1.last() == Ok::<DocValue, ImportError>(*main));
            assert(view_iface_results(results@) =~= Seq::<Result<SpecInterfaceDecl, SpecInterfaceDeclError>>::empty());
        }
        parse_source(main, &self.types, &mut self.types_usage, &mut results);
        proof {
            let (irs, iops) = spec_parse_source(*main, self.types@);
            assert(Seq::<Result<SpecInterfaceDecl, SpecInterfaceDeclError>>::empty() + irs =~= irs);
            assert(Seq::<SpecTrackerOp>::empty() + iops =~= iops);
            assert(spec_parse_iface_sources(Seq::<Result<DocValue, ImportError>>::empty(), self.types@) == (
                Seq::<Result<SpecInterfaceDecl, SpecInterfaceDeclError>>::empty(),
                Seq::<SpecTrackerOp>::empty(),
            ));
        }
        let n = imported.len();
        let mut i: usize = 0;
        while i < n
            invariant
                i <= n,
                n == imported@.len(),
                sources == seq![Ok::<DocValue, ImportError>(*main)] + imported@,
                sources.len() == 1 + n,
                self.types == old(self).types,
                ({
                    let (rs, ops) = spec_parse_iface_sources(sources.subrange(0, 1 + i as int), self.types@);
                    &&& view_iface_results(results@) == rs
                    &&& self.types_usage@ == tr_apply_all(st0, ops)
                }),
            decreases n - i,
        {
            let ghost pre = sources.subrange(0, 1 + i as int);
            let ghost post = sources.subrange(0, 1 + i as int + 1);
            proof {
                assert(post.drop_last() =~= pre);
                assert(post.last() == imported@[i as int]);
            }
            let ghost pops = spec_parse_iface_sources(pre, self.types@).1;
            match &imported[i] {
                Err(ie) => {
                    let ghost resultsv = results@;
                    results.push(Err(InterfaceDeclError::ImportFailure(ie.duplicate())));
                    proof {
                        assert(results@.drop_last() =~= resultsv);
                    }
                },
                Ok(frag) => {
                    parse_source(frag, &self.types, &mut self.types_usage, &mut results);
                    proof {
                        lemma_tr_apply_all_concat(st0, pops, spec_parse_source(imported@[i as int]->Ok_0, self.types@).1);
                    }
                },
            }
            i += 1;
        }
        proof {
            assert(sources.subrange(0, 1 + n as int) =~= sources);
        }
        Ok(results)
    }
}

// ---------------------------------------------------------------------
// Method-legality and response-resolution laws
// ---------------------------------------------------------------------

/// For every interface declared with method `get`, a `body` key fails
/// with the body-forbidden error, whatever else the declaration holds —
/// in particular, independent of any `query` key.
pub proof fn lemma_get_body_forbidden(entries: Seq<(DocValue, DocValue)>, types: Seq<Result<TypeDecl, TypeDeclError>>)
    requires
        (spec_map_get(entries, "path"@) matches Some(p) && p matches DocValue::Str(ps) && spec_get_params(ps@)
            is Some),
        (spec_map_get(entries, "method"@) matches Some(m) && m matches DocValue::Str(ms) && spec_method_of(ms@)
            == Some(HttpMethod::Get)),
        spec_map_has(entries, "body"@),
    ensures
        spec_parse_interface(entries, types).0 == Err::<SpecInterfaceDecl, SpecInterfaceDeclError>(
            SpecInterfaceDeclError::BodyNotAllowed,
        ),
{
}

/// For every interface declared with method `delete`, a `query` key
/// fails with the query-forbidden error; a `body` key beside it changes
/// nothing, so the two together still report exactly that one error.
pub proof fn lemma_delete_query_forbidden(
    entries: Seq<(DocValue, DocValue)>,
    types: Seq<Result<TypeDecl, TypeDeclError>>,
)
    requires
        (spec_map_get(entries, "path"@) matches Some(p) && p matches DocValue::Str(ps) && spec_get_params(ps@)
            is Some),
        (spec_map_get(entries, "method"@) matches Some(m) && m matches DocValue::Str(ms) && spec_method_of(ms@)
            == Some(HttpMethod::Delete)),
        spec_map_has(entries, "query"@),
    ensures
        spec_parse_interface(entries, types).0 == Err::<SpecInterfaceDecl, SpecInterfaceDeclError>(
            SpecInterfaceDeclError::QueryNotAllowed,
        ),
{
}

/// For every interface declared with method `delete` and no `query`
/// key, a `body` key fails with the body-forbidden error.
pub proof fn lemma_delete_body_forbidden(
    entries: Seq<(DocValue, DocValue)>,
    types: Seq<Result<TypeDecl, TypeDeclError>>,
)
    requires
        (spec_map_get(entries, "path"@) matches Some(p) && p matches DocValue::Str(ps) && spec_get_params(ps@)
            is Some),
        (spec_map_get(entries, "method"@) matches Some(m) && m matches DocValue::Str(ms) && spec_method_of(ms@)
            == Some(HttpMethod::Delete)),
        !spec_map_has(entries, "query"@),
        spec_map_has(entries, "body"@),
    ensures
        spec_parse_interface(entries, types).0 == Err::<SpecInterfaceDecl, SpecInterfaceDeclError>(
            SpecInterfaceDeclError::BodyNotAllowed,
        ),
{
}

/// A response declared as a bare string resolves against the declared
/// types: an unknown name is a hard type-not-found failure, a known name
/// yields the single `200` response carrying that type's properties.
pub proof fn lemma_response_named_type(
    entries: Seq<(DocValue, DocValue)>,
    types: Seq<Result<TypeDecl, TypeDeclError>>,
    name: Seq<char>,
)
    requires
        (spec_map_get(entries, "path"@) matches Some(p) && p matches DocValue::Str(ps) && spec_get_params(ps@)
            is Some),
        (spec_map_get(entries, "method"@) matches Some(m) && m matches DocValue::Str(ms) && spec_method_of(ms@)
            is Some),
        spec_get_payload(spec_method_of(spec_map_get(entries, "method"@)->Some_0->Str_0@)->Some_0, entries).0 is Ok,
        (spec_map_get(entries, "response"@) matches Some(r) && r matches DocValue::Str(n) && n@ == name),
    ensures
        (match spec_find_type(types, name) {
            None => spec_parse_interface(entries, types).0 == Err::<SpecInterfaceDecl, SpecInterfaceDeclError>(
                SpecInterfaceDeclError::TypeNotFound(name),
            ),
            Some(td) => (spec_parse_interface(entries, types).0 matches Ok(d)
                && d.api_spec matches SpecInterfaceSpec::Api(api) && api.responses == Some(
                Seq::<(StatusCode, SpecTypeDecl)>::empty().push(
                    (StatusCode::Fixed(200), spec_named_response(name, td)),
                ),
            )),
        }),
{
}

/// A response mapping with no status-like key is itself the single
/// implicit `200` response body.
pub proof fn lemma_implicit_response_code(
    entries: Seq<(DocValue, DocValue)>,
    types: Seq<Result<TypeDecl, TypeDeclError>>,
)
    requires
        !spec_has_custom_codes(entries),
    ensures
        ({
            let sc = StatusCode::Fixed(200);
            let (tr, _) = spec_parse_type_decl(
                spec_status_key(sc),
                entries,
                spec_site_of(TypeDeclSource::InterfaceOutput(0, sc)),
            );
            match tr {
                Ok(td) => spec_responses_from(entries, types).0 == Ok::<
                    Option<Seq<(StatusCode, SpecTypeDecl)>>,
                    SpecInterfaceDeclError,
                >(Some(Seq::<(StatusCode, SpecTypeDecl)>::empty().push((sc, td)))),
                Err(_) => spec_responses_from(entries, types).0 == Err::<
                    Option<Seq<(StatusCode, SpecTypeDecl)>>,
                    SpecInterfaceDeclError,
                >(SpecInterfaceDeclError::InvalidResponseTypeDeclaration),
            }
        }),
{
}

} // verus!
