//! The type-expression grammar and the type-declaration parser.
//!
//! A type expression is `name ('[' expr (', ' expr)* ']')? '?'?`: a
//! leading identifier, an optional balanced bracket group split on
//! top-level `", "` separators, and an optional trailing `?` marking the
//! property optional.  Built-ins are `str`, `bool`, `int`, `double`,
//! `array` (one subtype) and `dict` (a primitive key and a full type
//! expression as value); any other bare name is a reference to a type
//! declared elsewhere, recorded with the usage tracker.

use vstd::prelude::*;

use crate::doc::{DocMap, DocValue};
use crate::schema::{
    DataType, DataTypeDecl, Primitive, PropertyDecl, SpecDataType, SpecDataTypeDecl, SpecPropertyDecl,
    SpecTypeDecl, SpecTypeDeclError, TypeDecl, TypeDeclError, TypeDeclSource, UnknownType, site_of, spec_site_of, view_dt_result,
    view_dtd_result, view_prop, view_props, view_strings, view_type_err, view_type_result,
};
use crate::schema::{ImportError, SpecImportError, TypeDeclResults, view_import_err, view_type_results};
use crate::tracker::{SpecTrackerOp, Tracker, lemma_tr_apply_all_concat, tr_apply_all};

verus! {

// ---------------------------------------------------------------------
// The grammar, mathematically
// ---------------------------------------------------------------------

pub open spec fn is_ident_start_char(c: char) -> bool {
    c == '_' || ('a' <= c && c <= 'z') || ('A' <= c && c <= 'Z')
}

pub open spec fn is_ident_char(c: char) -> bool {
    is_ident_start_char(c) || ('0' <= c && c <= '9')
}

/// End of the identifier run that starts at `i`.
pub open spec fn ident_end(s: Seq<char>, i: int) -> int
    decreases s.len() - i,
{
    if 0 <= i < s.len() && is_ident_char(s[i]) {
        ident_end(s, i + 1)
    } else {
        i
    }
}

/// Length of the leading type name: a maximal run of identifier
/// characters whose first character is alphabetic or `_`.
pub open spec fn name_scan_end(s: Seq<char>) -> int {
    if s.len() > 0 && is_ident_start_char(s[0]) {
        ident_end(s, 1)
    } else {
        0
    }
}

/// Scan a bracket group from `i` (just past the opening `[`) at nesting
/// `depth`, accumulating the current token `cur` and finished tokens
/// `acc`.  Tokens split at depth-one commas, each assumed to be followed
/// by one separator character; the group ends at the depth-one `]`.
/// `None` means the group never closes.
pub open spec fn scan_group(s: Seq<char>, i: int, depth: int, cur: Seq<char>, acc: Seq<Seq<char>>) -> Option<
    (Seq<Seq<char>>, int),
>
    decreases s.len() - i,
{
    if i < 0 || i >= s.len() {
        None
    } else if s[i] == ']' && depth == 1 {
        Some((acc.push(cur), i + 1))
    } else if s[i] == ']' {
        scan_group(s, i + 1, depth - 1, cur.push(']'), acc)
    } else if s[i] == ',' && depth == 1 {
        if i + 1 < s.len() {
            scan_group(s, i + 2, depth, Seq::empty(), acc.push(cur))
        } else {
            None
        }
    } else if s[i] == '[' {
        scan_group(s, i + 1, depth + 1, cur.push('['), acc)
    } else {
        scan_group(s, i + 1, depth, cur.push(s[i]), acc)
    }
}

/// A closed group ends inside the string, and every token is shorter
/// than the distance the scan travelled.
pub proof fn lemma_scan_group_bounds(
    s: Seq<char>,
    i: int,
    depth: int,
    cur: Seq<char>,
    acc: Seq<Seq<char>>,
    b: int,
)
    requires
        0 <= i,
        scan_group(s, i, depth, cur, acc) is Some,
        cur.len() <= b,
        forall|k: int| 0 <= k < acc.len() ==> (#[trigger] acc[k]).len() <= b,
    ensures
        ({
            let (toks, j) = scan_group(s, i, depth, cur, acc)->Some_0;
            &&& i < j <= s.len()
            &&& toks.len() >= 1
            &&& forall|k: int| 0 <= k < toks.len() ==> (#[trigger] toks[k]).len() <= b + (j - 1 - i)
        }),
    decreases s.len() - i,
{
    let (toks, j) = scan_group(s, i, depth, cur, acc)->Some_0;
    if s[i] == ']' && depth == 1 {
        assert(toks == acc.push(cur));
        assert(forall|k: int| 0 <= k < acc.len() ==> toks[k] == acc[k]);
        assert(toks[acc.len() as int] == cur);
    } else if s[i] == ']' {
        lemma_scan_group_bounds(s, i + 1, depth - 1, cur.push(']'), acc, b + 1);
    } else if s[i] == ',' && depth == 1 {
        let acc2 = acc.push(cur);
        assert(forall|k: int| 0 <= k < acc2.len() ==> (#[trigger] acc2[k]).len() <= b);
        lemma_scan_group_bounds(s, i + 2, depth, Seq::empty(), acc2, b);
    } else if s[i] == '[' {
        lemma_scan_group_bounds(s, i + 1, depth + 1, cur.push('['), acc, b + 1);
    } else {
        lemma_scan_group_bounds(s, i + 1, depth, cur.push(s[i]), acc, b + 1);
    }
}

pub open spec fn spec_prim_of(name: Seq<char>) -> Option<Primitive> {
    if name == "str"@ {
        Some(Primitive::Str)
    } else if name == "bool"@ {
        Some(Primitive::Bool)
    } else if name == "int"@ {
        Some(Primitive::Int)
    } else if name == "double"@ {
        Some(Primitive::Double)
    } else {
        None
    }
}

/// Resolve a token standing alone, with no subtype list of its own: a
/// primitive resolves directly, a container name without subtypes is a
/// malformed subtype list, and anything else is a named reference.
pub open spec fn spec_resolve_bare(tok: Seq<char>) -> (Result<SpecDataType, SpecTypeDeclError>, Seq<Seq<char>>) {
    match spec_prim_of(tok) {
        Some(p) => (Ok(SpecDataType::Primitive(p)), Seq::empty()),
        None => if tok == "array"@ || tok == "dict"@ {
            (Err(SpecTypeDeclError::SubtypeValuesEmptyDeclaration), Seq::empty())
        } else {
            (Ok(SpecDataType::Object(tok)), seq![tok])
        },
    }
}

/// Parse one full type expression.  Returns the outcome and the named
/// references the parse records, in order; references recorded before a
/// later failure stay recorded, as the tracker never rolls back.
pub open spec fn spec_parse_type_expr(s: Seq<char>) -> (Result<SpecDataTypeDecl, SpecTypeDeclError>, Seq<Seq<char>>)
    decreases s.len(),
{
    if s.len() == 0 {
        (Err(SpecTypeDeclError::EmptyTypeDeclaration), Seq::empty())
    } else {
        let ne = name_scan_end(s);
        if ne == 0 {
            (Err(SpecTypeDeclError::EmptyTypeDeclaration), Seq::empty())
        } else {
            let name = s.subrange(0, ne);
            if ne < s.len() && s[ne] == '[' {
                match scan_group(s, ne + 1, 1, Seq::empty(), Seq::empty()) {
                    None => (Err(SpecTypeDeclError::SubtypeValuesEmptyDeclaration), Seq::empty()),
                    Some((toks, j)) => {
                        if exists|k: int| 0 <= k < toks.len() && (#[trigger] toks[k]).len() == 0 {
                            (Err(SpecTypeDeclError::SubtypeValuesEmptyDeclaration), Seq::empty())
                        } else {
                            let required = !(j < s.len() && s[j] == '?');
                            match spec_prim_of(name) {
                                Some(p) => (
                                    Ok(
                                        SpecDataTypeDecl {
                                            data_type: SpecDataType::Primitive(p),
                                            is_required: required,
                                        },
                                    ),
                                    Seq::empty(),
                                ),
                                None => if name == "array"@ {
                                    if toks.len() != 1 {
                                        (Err(SpecTypeDeclError::SubtypeValuesEmptyDeclaration), Seq::empty())
                                    } else {
                                        let (er, refs) = spec_resolve_bare(toks[0]);
                                        match er {
                                            Ok(elem) => (
                                                Ok(
                                                    SpecDataTypeDecl {
                                                        data_type: SpecDataType::Array(Box::new(elem)),
                                                        is_required: required,
                                                    },
                                                ),
                                                refs,
                                            ),
                                            Err(e) => (Err(e), refs),
                                        }
                                    }
                                } else if name == "dict"@ {
                                    if toks.len() != 2 {
                                        (Err(SpecTypeDeclError::SubtypeValuesEmptyDeclaration), Seq::empty())
                                    } else {
                                        match spec_prim_of(toks[0]) {
                                            None => (
                                                Err(SpecTypeDeclError::UnsupportedPrimitive(toks[0])),
                                                Seq::empty(),
                                            ),
                                            Some(key) => {
                                                proof {
                                                    lemma_scan_group_bounds(
                                                        s,
                                                        ne + 1,
                                                        1,
                                                        Seq::empty(),
                                                        Seq::empty(),
                                                        0,
                                                    );
                                                }
                                                let (vr, vrefs) = spec_parse_type_expr(toks[1]);
                                                match vr {
                                                    Ok(vd) => (
                                                        Ok(
                                                            SpecDataTypeDecl {
                                                                data_type: SpecDataType::Dict(
                                                                    key,
                                                                    Box::new(vd.data_type),
                                                                ),
                                                                is_required: required,
                                                            },
                                                        ),
                                                        vrefs,
                                                    ),
                                                    Err(e) => (Err(e), vrefs),
                                                }
                                            },
                                        }
                                    }
                                } else {
                                    (
                                        Ok(
                                            SpecDataTypeDecl {
                                                data_type: SpecDataType::Object(name),
                                                is_required: required,
                                            },
                                        ),
                                        seq![name],
                                    )
                                },
                            }
                        }
                    },
                }
            } else {
                let required = !(ne < s.len() && s[ne] == '?');
                let (br, refs) = spec_resolve_bare(name);
                match br {
                    Ok(dt) => (Ok(SpecDataTypeDecl { data_type: dt, is_required: required }), refs),
                    Err(e) => (Err(e), refs),
                }
            }
        }
    }
}

// ---------------------------------------------------------------------
// The grammar, executably
// ---------------------------------------------------------------------

fn is_ident_start_exec(c: char) -> (r: bool)
    ensures
        r == is_ident_start_char(c),
{
    c == '_' || ('a' <= c && c <= 'z') || ('A' <= c && c <= 'Z')
}

fn is_ident_exec(c: char) -> (r: bool)
    ensures
        r == is_ident_char(c),
{
    is_ident_start_exec(c) || ('0' <= c && c <= '9')
}

/// Length of the leading type name of `s`.
#[verifier::loop_isolation(false)]
fn scan_name(s: &str) -> (r: usize)
    ensures
        r as int == name_scan_end(s@),
        r <= s@.len(),
{
    let n = s.unicode_len();
    if n == 0 {
        return 0;
    }
    if !is_ident_start_exec(s.get_char(0)) {
        return 0;
    }
    let mut i: usize = 1;
    while i < n
        invariant
            1 <= i <= n,
            n == s@.len(),
            ident_end(s@, 1) == ident_end(s@, i as int),
        decreases n - i,
    {
        if !is_ident_exec(s.get_char(i)) {
            proof {
                assert(ident_end(s@, i as int) == i as int);
            }
            return i;
        }
        i += 1;
    }
    n
}

/// Scan the bracket group of `s` that opens just before `start`.
#[verifier::loop_isolation(false)]
fn scan_group_exec(s: &str, start: usize) -> (r: Result<(Vec<String>, usize), TypeDeclError>)
    requires
        1 <= start <= s@.len(),
    ensures
        match r {
            Ok(p) => {
                &&& scan_group(s@, start as int, 1, Seq::empty(), Seq::empty()) == Some(
                    (view_strings(p.0@), p.1 as int),
                )
                &&& p.1 <= s@.len()
            },
            Err(e) => {
                &&& scan_group(s@, start as int, 1, Seq::empty(), Seq::empty()) is None
                &&& e == TypeDeclError::SubtypeValuesEmptyDeclaration
            },
        },
{
    let n = s.unicode_len();
    let mut i: usize = start;
    let mut depth: usize = 1;
    let mut tok_start: usize = start;
    let mut acc: Vec<String> = Vec::new();
    proof {
        assert(s@.subrange(start as int, start as int) =~= Seq::<char>::empty());
        assert(view_strings(acc@) =~= Seq::<Seq<char>>::empty());
    }
    while i < n
        invariant
            start <= tok_start <= i <= n,
            n == s@.len(),
            1 <= depth <= i - start + 1,
            scan_group(s@, start as int, 1, Seq::empty(), Seq::empty()) == scan_group(
                s@,
                i as int,
                depth as int,
                s@.subrange(tok_start as int, i as int),
                view_strings(acc@),
            ),
        decreases n - i,
    {
        let c = s.get_char(i);
        let ghost cur = s@.subrange(tok_start as int, i as int);
        let ghost accv = view_strings(acc@);
        proof {
            assert(s@.subrange(tok_start as int, i as int + 1) =~= cur.push(s@[i as int]));
        }
        if c == ']' && depth == 1 {
            let tok = s.substring_char(tok_start, i).to_owned();
            let ghost accp = acc@;
            acc.push(tok);
            proof {
                assert(acc@.drop_last() =~= accp);
                assert(view_strings(acc@) =~= accv.push(cur));
            }
            return Ok((acc, i + 1));
        } else if c == ']' {
            depth -= 1;
            i += 1;
        } else if c == ',' && depth == 1 {
            if i + 1 >= n {
                return Err(TypeDeclError::SubtypeValuesEmptyDeclaration);
            }
            let tok = s.substring_char(tok_start, i).to_owned();
            let ghost accp = acc@;
            acc.push(tok);
            proof {
                assert(acc@.drop_last() =~= accp);
                assert(view_strings(acc@) =~= accv.push(cur));
                assert(s@.subrange(i as int + 2, i as int + 2) =~= Seq::<char>::empty());
            }
            i += 2;
            tok_start = i;
        } else if c == '[' {
            proof {
                assert(depth <= n - 1);
            }
            depth += 1;
            i += 1;
        } else {
            i += 1;
        }
    }
    Err(TypeDeclError::SubtypeValuesEmptyDeclaration)
}

/// The primitive a bare name denotes, if any.
fn prim_of(name: &str) -> (r: Option<Primitive>)
    ensures
        r == spec_prim_of(name@),
{
    if crate::doc::str_eq(name, "str") {
        Some(Primitive::Str)
    } else if crate::doc::str_eq(name, "bool") {
        Some(Primitive::Bool)
    } else if crate::doc::str_eq(name, "int") {
        Some(Primitive::Int)
    } else if crate::doc::str_eq(name, "double") {
        Some(Primitive::Double)
    } else {
        None
    }
}

/// Resolve a token standing alone (see [`spec_resolve_bare`]).
fn resolve_bare(tok: &str) -> (r: (Result<DataType, TypeDeclError>, Vec<String>))
    ensures
        ({
            let (sr, srefs) = spec_resolve_bare(tok@);
            view_dt_result(r.0) == sr && view_strings(r.1@) == srefs
        }),
{
    match prim_of(tok) {
        Some(p) => {
            proof {
                assert(view_strings(Seq::<String>::empty()) =~= Seq::<Seq<char>>::empty());
            }
            (Ok(DataType::Primitive(p)), Vec::new())
        },
        None => {
            if crate::doc::str_eq(tok, "array") || crate::doc::str_eq(tok, "dict") {
                proof {
                    assert(view_strings(Seq::<String>::empty()) =~= Seq::<Seq<char>>::empty());
                }
                (Err(TypeDeclError::SubtypeValuesEmptyDeclaration), Vec::new())
            } else {
                let mut refs: Vec<String> = Vec::new();
                refs.push(tok.to_owned());
                proof {
                    assert(refs@.drop_last() =~= Seq::<String>::empty());
                    assert(view_strings(Seq::<String>::empty()) == Seq::<Seq<char>>::empty());
                    assert(view_strings(refs@) == view_strings(refs@.drop_last()).push(refs@.last()@));
                    assert(view_strings(refs@) =~= seq![tok@]);
                }
                (Ok(DataType::Object(tok.to_owned())), refs)
            }
        },
    }
}

/// Parse one full type expression, returning the outcome and the named
/// references it records, in order.
#[verifier::loop_isolation(false)]
pub fn parse_type_expr(s: &str) -> (r: (Result<DataTypeDecl, TypeDeclError>, Vec<String>))
    ensures
        ({
            let (sr, srefs) = spec_parse_type_expr(s@);
            view_dtd_result(r.0) == sr && view_strings(r.1@) == srefs
        }),
    decreases s@.len(),
{
    proof {
        assert(view_strings(Seq::<String>::empty()) =~= Seq::<Seq<char>>::empty());
    }
    let n = s.unicode_len();
    if n == 0 {
        return (Err(TypeDeclError::EmptyTypeDeclaration), Vec::new());
    }
    let ne = scan_name(s);
    if ne == 0 {
        return (Err(TypeDeclError::EmptyTypeDeclaration), Vec::new());
    }
    let name = s.substring_char(0, ne);
    if ne < n && s.get_char(ne) == '[' {
        match scan_group_exec(s, ne + 1) {
            Err(e) => (Err(e), Vec::new()),
            Ok((toks, j)) => {
                let ghost stoks = view_strings(toks@);
                proof {
                    lemma_view_strings_index(toks@);
                }
                // Any empty token is a malformed subtype list.
                let tl = toks.len();
                let mut k: usize = 0;
                while k < tl
                    invariant
                        k <= tl,
                        tl == toks@.len(),
                        stoks == view_strings(toks@),
                        stoks.len() == tl,
                        forall|m: int| 0 <= m < k ==> (#[trigger] stoks[m]).len() != 0,
                        forall|m: int| 0 <= m < tl ==> (#[trigger] stoks[m]) == toks@[m]@,
                    decreases tl - k,
                {
                    if toks[k].as_str().unicode_len() == 0 {
                        proof {
                            assert(0 <= k < stoks.len() && stoks[k as int].len() == 0);
                        }
                        return (Err(TypeDeclError::SubtypeValuesEmptyDeclaration), Vec::new());
                    }
                    k += 1;
                }
                let required = !(j < n && s.get_char(j) == '?');
                match prim_of(name) {
                    Some(p) => (
                        Ok(DataTypeDecl { data_type: DataType::Primitive(p), is_required: required }),
                        Vec::new(),
                    ),
                    None => {
                        if crate::doc::str_eq(name, "array") {
                            if toks.len() != 1 {
                                (Err(TypeDeclError::SubtypeValuesEmptyDeclaration), Vec::new())
                            } else {
                                let (er, refs) = resolve_bare(toks[0].as_str());
                                match er {
                                    Ok(elem) => (
                                        Ok(
                                            DataTypeDecl {
                                                data_type: DataType::Array(Box::new(elem)),
                                                is_required: required,
                                            },
                                        ),
                                        refs,
                                    ),
                                    Err(e) => (Err(e), refs),
                                }
                            }
                        } else if crate::doc::str_eq(name, "dict") {
                            if toks.len() != 2 {
                                (Err(TypeDeclError::SubtypeValuesEmptyDeclaration), Vec::new())
                            } else {
                                match prim_of(toks[0].as_str()) {
                                    None => (
                                        Err(TypeDeclError::UnsupportedPrimitive(toks[0].clone())),
                                        Vec::new(),
                                    ),
                                    Some(key) => {
                                        proof {
                                            lemma_scan_group_bounds(
                                                s@,
                                                ne as int + 1,
                                                1,
                                                Seq::empty(),
                                                Seq::empty(),
                                                0,
                                            );
                                        }
                                        let (vr, vrefs) = parse_type_expr(toks[1].as_str());
                                        match vr {
                                            Ok(vd) => (
                                                Ok(
                                                    DataTypeDecl {
                                                        data_type: DataType::Dict(key, Box::new(vd.data_type)),
                                                        is_required: required,
                                                    },
                                                ),
                                                vrefs,
                                            ),
                                            Err(e) => (Err(e), vrefs),
                                        }
                                    },
                                }
                            }
                        } else {
                            let mut refs: Vec<String> = Vec::new();
                            refs.push(name.to_owned());
                            proof {
                                assert(refs@.drop_last() =~= Seq::<String>::empty());
                                assert(view_strings(Seq::<String>::empty()) == Seq::<Seq<char>>::empty());
                                assert(view_strings(refs@) == view_strings(refs@.drop_last()).push(refs@.last()@));
                                assert(view_strings(refs@) =~= seq![name@]);
                            }
                            (
                                Ok(
                                    DataTypeDecl {
                                        data_type: DataType::Object(name.to_owned()),
                                        is_required: required,
                                    },
                                ),
                                refs,
                            )
                        }
                    },
                }
            },
        }
    } else {
        let required = !(ne < n && s.get_char(ne) == '?');
        let (br, refs) = resolve_bare(name);
        match br {
            Ok(dt) => (Ok(DataTypeDecl { data_type: dt, is_required: required }), refs),
            Err(e) => (Err(e), refs),
        }
    }
}

// ---------------------------------------------------------------------
// Type declarations: a mapping of property name to type expression or
// nested record literal
// ---------------------------------------------------------------------

/// The tracker operations recording `refs` from `site`, in order.
pub open spec fn refs_to_ops(refs: Seq<Seq<char>>, site: UnknownType) -> Seq<SpecTrackerOp>
    decreases refs.len(),
{
    if refs.len() == 0 {
        Seq::empty()
    } else {
        refs_to_ops(refs.drop_last(), site).push(SpecTrackerOp::Ref(refs.last(), site))
    }
}

/// Parse one property's type node: a string runs the type-expression
/// grammar, a non-empty mapping is an anonymous nested record (always
/// required), anything else is unsupported.
pub open spec fn spec_make_data_type_decl(v: DocValue, pname: Seq<char>, site: UnknownType) -> (
    Result<SpecDataTypeDecl, SpecTypeDeclError>,
    Seq<SpecTrackerOp>,
)
    decreases v, 1int,
{
    match v {
        DocValue::Str(sv) => {
            let (dr, refs) = spec_parse_type_expr(sv@);
            (dr, refs_to_ops(refs, site))
        },
        DocValue::Hash(m) => if m@.len() == 0 {
            (Err(SpecTypeDeclError::EmptyTypeDeclaration), Seq::empty())
        } else {
            let (tr, tops) = spec_parse_type_decl(pname, m@, site);
            (
                match tr {
                    Ok(td) => Ok(
                        SpecDataTypeDecl {
                            data_type: SpecDataType::ObjectDecl(td),
                            is_required: true,
                        },
                    ),
                    Err(_) => Err(SpecTypeDeclError::UnsupportedTypeDeclaration),
                },
                tops,
            )
        },
        _ => (Err(SpecTypeDeclError::UnsupportedTypeDeclaration), Seq::empty()),
    }
}

/// Parse a property list in order.  A non-string property key aborts the
/// whole declaration; a property whose type fails to parse is captured
/// in that property alone.  Operations recorded before a failure stay.
pub open spec fn spec_parse_props(entries: Seq<(DocValue, DocValue)>, site: UnknownType) -> (
    Result<Seq<SpecPropertyDecl>, SpecTypeDeclError>,
    Seq<SpecTrackerOp>,
)
    decreases entries, 1int,
{
    if entries.len() == 0 {
        (Ok(Seq::empty()), Seq::empty())
    } else {
        let (pr, pops) = spec_parse_props(entries.drop_last(), site);
        match pr {
            Err(e) => (Err(e), pops),
            Ok(props) => {
                match entries.last().0 {
                    DocValue::Str(kname) => {
                        let (dr, dops) = spec_make_data_type_decl(entries.last().1, kname@, site);
                        (
                            Ok(props.push(SpecPropertyDecl { name: kname@, data_type_decl: dr })),
                            pops + dops,
                        )
                    },
                    _ => (Err(SpecTypeDeclError::UnsupportedKeyType), pops),
                }
            },
        }
    }
}

/// A property list whose prefix already failed keeps that failure,
/// whatever follows.
pub proof fn lemma_parse_props_err_extends(entries: Seq<(DocValue, DocValue)>, i: int, site: UnknownType)
    requires
        0 <= i <= entries.len(),
        spec_parse_props(entries.subrange(0, i), site).0 is Err,
    ensures
        spec_parse_props(entries, site) == spec_parse_props(entries.subrange(0, i), site),
    decreases entries.len() - i,
{
    if i < entries.len() {
        assert(entries.subrange(0, i + 1).drop_last() =~= entries.subrange(0, i));
        assert(entries.subrange(0, i + 1).len() != 0);
        lemma_parse_props_err_extends(entries, i + 1, site);
    } else {
        assert(entries.subrange(0, i) =~= entries);
    }
}

/// Parse one record declaration: its properties in order, then record
/// the record's own name as declared.
pub open spec fn spec_parse_type_decl(name: Seq<char>, entries: Seq<(DocValue, DocValue)>, site: UnknownType) -> (
    Result<SpecTypeDecl, SpecTypeDeclError>,
    Seq<SpecTrackerOp>,
)
    decreases entries, 2int,
{
    let (pr, ops) = spec_parse_props(entries, site);
    match pr {
        Err(e) => (Err(e), ops),
        Ok(props) => (
            Ok(SpecTypeDecl { name: name, property_decls: props }),
            ops.push(SpecTrackerOp::Decl(name)),
        ),
    }
}

/// Record every reference in `refs` from `site`, in order.
fn record_refs(refs: &Vec<String>, site: UnknownType, types_usage: &mut Tracker)
    ensures
        final(types_usage)@ == tr_apply_all(old(types_usage)@, refs_to_ops(view_strings(refs@), site)),
{
    let ghost srefs = view_strings(refs@);
    let ghost st0 = types_usage@;
    proof {
        lemma_view_strings_index(refs@);
        assert(refs_to_ops(srefs.subrange(0, 0), site) =~= Seq::<SpecTrackerOp>::empty());
        assert(srefs.subrange(0, 0) =~= Seq::<Seq<char>>::empty());
    }
    let n = refs.len();
    let mut k: usize = 0;
    while k < n
        invariant
            k <= n,
            n == refs@.len(),
            srefs == view_strings(refs@),
            srefs.len() == n,
            forall|m: int| 0 <= m < n ==> (#[trigger] srefs[m]) == refs@[m]@,
            types_usage@ == tr_apply_all(st0, refs_to_ops(srefs.subrange(0, k as int), site)),
        decreases n - k,
    {
        types_usage.record_reference(refs[k].as_str(), site);
        proof {
            let pre = srefs.subrange(0, k as int);
            let post = srefs.subrange(0, k as int + 1);
            assert(post.drop_last() =~= pre);
            assert(post.last() == srefs[k as int]);
            assert(refs_to_ops(post, site).drop_last() =~= refs_to_ops(pre, site));
        }
        k += 1;
    }
    proof {
        assert(srefs.subrange(0, n as int) =~= srefs);
    }
}

/// Parser for one record declaration: the record's name and the site
/// kind its references are recorded under.
pub struct TypeParser {
    pub key: String,
    pub source: TypeDeclSource,
}

impl TypeParser {
    /// Parse one property's type node (see [`spec_make_data_type_decl`]).
    pub fn make_data_type_decl(
        &self,
        raw_type: &DocValue,
        property_name: &str,
        types_usage: &mut Tracker,
    ) -> (r: Result<DataTypeDecl, TypeDeclError>)
        ensures
            ({
                let (sr, ops) = spec_make_data_type_decl(*raw_type, property_name@, spec_site_of(self.source));
                view_dtd_result(r) == sr && final(types_usage)@ == tr_apply_all(old(types_usage)@, ops)
            }),
        decreases *raw_type, 1int,
    {
        match raw_type {
            DocValue::Str(sv) => {
                let (dr, refs) = parse_type_expr(sv.as_str());
                record_refs(&refs, site_of(&self.source), types_usage);
                dr
            },
            DocValue::Hash(m) => {
                if m.len() == 0 {
                    Err(TypeDeclError::EmptyTypeDeclaration)
                } else {
                    let nested = TypeParser { key: property_name.to_owned(), source: self.source };
                    proof {
                        assert(decreases_to!(*raw_type => *m));
                    }
                    match nested.parse(m, types_usage) {
                        Ok(td) => Ok(
                            DataTypeDecl { data_type: DataType::ObjectDecl(td), is_required: true },
                        ),
                        Err(_) => Err(TypeDeclError::UnsupportedTypeDeclaration),
                    }
                }
            },
            _ => Err(TypeDeclError::UnsupportedTypeDeclaration),
        }
    }

    /// Parse the record declaration `self.key` from its property map
    /// (see [`spec_parse_type_decl`]).
    #[verifier::loop_isolation(false)]
    pub fn parse(&self, value: &DocMap, types_usage: &mut Tracker) -> (r: Result<TypeDecl, TypeDeclError>)
        ensures
            ({
                let (sr, ops) = spec_parse_type_decl(self.key@, value@, spec_site_of(self.source));
                view_type_result(r) == sr && final(types_usage)@ == tr_apply_all(old(types_usage)@, ops)
            }),
        decreases value@, 2int,
    {
        let ghost st0 = types_usage@;
        let ghost site = spec_site_of(self.source);
        let mut props: Vec<PropertyDecl> = Vec::new();
        proof {
            assert(value@.subrange(0, 0) =~= Seq::<(DocValue, DocValue)>::empty());
            assert(view_props(props@) =~= Seq::<SpecPropertyDecl>::empty());
        }
        let n = value.len();
        let mut i: usize = 0;
        while i < n
            invariant
                i <= n,
                n == value@.len(),
                ({
                    let (pr, pops) = spec_parse_props(value@.subrange(0, i as int), site);
                    &&& pr == Ok::<_, SpecTypeDeclError>(view_props(props@))
                    &&& types_usage@ == tr_apply_all(st0, pops)
                }),
            decreases n - i,
        {
            let ghost pre = value@.subrange(0, i as int);
            let ghost post = value@.subrange(0, i as int + 1);
            proof {
                assert(post.drop_last() =~= pre);
                assert(post.last() == value@[i as int]);
                assert(decreases_to!(value@ => value@[i as int].1));
            }
            match &value[i].0 {
                DocValue::Str(kname) => {
                    let ghost pops = spec_parse_props(pre, site).1;
                    let ghost tr_mid = types_usage@;
                    let dr = self.make_data_type_decl(&value[i].1, kname.as_str(), types_usage);
                    let ghost dops = spec_make_data_type_decl(value@[i as int].1, kname@, site).1;
                    proof {
                        lemma_tr_apply_all_concat(st0, pops, dops);
                    }
                    let ghost propsv = props@;
                    props.push(PropertyDecl { name: kname.clone(), data_type_decl: dr });
                    proof {
                        assert(props@.drop_last() =~= propsv);
                        assert(view_props(props@) == view_props(propsv).push(view_prop(props@.last())));
                    }
                },
                _ => {
                    proof {
                        lemma_parse_props_err_extends(value@, i as int + 1, site);
                    }
                    return Err(TypeDeclError::UnsupportedKeyType);
                },
            }
            i += 1;
        }
        proof {
            assert(value@.subrange(0, n as int) =~= value@);
        }
        types_usage.record_declaration(self.key.as_str());
        proof {
            let (pr, pops) = spec_parse_props(value@, site);
            assert(pops.push(SpecTrackerOp::Decl(self.key@)).drop_last() =~= pops);
        }
        Ok(TypeDecl { name: self.key.clone(), property_decls: props })
    }
}

/// An empty type expression always fails with the empty-declaration
/// error, never any other variant.
pub proof fn lemma_empty_expression_fails(s: Seq<char>)
    requires
        s.len() == 0,
    ensures
        spec_parse_type_expr(s) == (
            Err::<SpecDataTypeDecl, SpecTypeDeclError>(SpecTypeDeclError::EmptyTypeDeclaration),
            Seq::<Seq<char>>::empty(),
        ),
{
}

/// A successful property list has one property per entry.
pub proof fn lemma_parse_props_len(entries: Seq<(DocValue, DocValue)>, site: UnknownType)
    ensures
        (match spec_parse_props(entries, site).0 {
            Ok(props) => props.len() == entries.len(),
            Err(_) => true,
        }),
    decreases entries.len(),
{
    if entries.len() > 0 {
        lemma_parse_props_len(entries.drop_last(), site);
    }
}

/// A property declared as a nested record literal is always required,
/// whatever optionality markers its child expressions carry.
pub proof fn lemma_nested_record_always_required(entries: Seq<(DocValue, DocValue)>, site: UnknownType, i: int)
    requires
        spec_parse_props(entries, site).0 is Ok,
        0 <= i < entries.len(),
        entries[i].1 is Hash,
    ensures
        ({
            let props = spec_parse_props(entries, site).0->Ok_0;
            &&& props.len() == entries.len()
            &&& match props[i].data_type_decl {
                Ok(d) => d.is_required,
                Err(_) => true,
            }
        }),
    decreases entries.len(),
{
    lemma_parse_props_len(entries, site);
    lemma_parse_props_len(entries.drop_last(), site);
    if i < entries.len() - 1 {
        assert(entries.drop_last()[i] == entries[i]);
        lemma_nested_record_always_required(entries.drop_last(), site, i);
        let props = spec_parse_props(entries, site).0->Ok_0;
        let pre = spec_parse_props(entries.drop_last(), site).0->Ok_0;
        assert(props[i] == pre[i]);
    } else {
        assert(entries.last() == entries[i]);
        let props = spec_parse_props(entries, site).0->Ok_0;
        let pre = spec_parse_props(entries.drop_last(), site).0->Ok_0;
        assert(props == pre.push(props.last()));
        assert(props[i] == props.last());
        match entries.last().0 {
            DocValue::Str(kn) => {
                let (dr, dops) = spec_make_data_type_decl(entries.last().1, kn@, site);
                assert(props.last().data_type_decl == dr);
                match entries.last().1 {
                    DocValue::Hash(m) => {
                        assert(match dr {
                            Ok(d) => d.is_required,
                            Err(_) => true,
                        });
                    },
                    _ => {
                        assert(false);
                    },
                }
            },
            _ => {
                assert(false);
            },
        }
    }
}

// ---------------------------------------------------------------------
// Whole fragments and composed sources
// ---------------------------------------------------------------------

/// Parse one document fragment's type section: each entry one record
/// declaration, `_import` keys skipped, a non-string key aborting the
/// fragment.  Site indices count entries from the fragment's start,
/// the `_import` key included.
pub open spec fn spec_parse_fragment(entries: Seq<(DocValue, DocValue)>) -> (
    Result<Seq<Result<SpecTypeDecl, SpecTypeDeclError>>, SpecTypeDeclError>,
    Seq<SpecTrackerOp>,
)
    decreases entries.len(),
{
    if entries.len() == 0 {
        (Ok(Seq::empty()), Seq::empty())
    } else {
        let (pr, pops) = spec_parse_fragment(entries.drop_last());
        match pr {
            Err(e) => (Err(e), pops),
            Ok(rs) => {
                let idx = entries.len() - 1;
                match entries.last().0 {
                    DocValue::Str(kn) => if kn@ == "_import"@ {
                        (Ok(rs), pops)
                    } else {
                        match entries.last().1 {
                            DocValue::Hash(m) => {
                                let (tr, tops) = spec_parse_type_decl(
                                    kn@,
                                    m@,
                                    spec_site_of(TypeDeclSource::Type(idx as usize)),
                                );
                                (Ok(rs.push(tr)), pops + tops)
                            },
                            _ => (Ok(rs.push(Err(SpecTypeDeclError::UnsupportedTypeDeclaration))), pops),
                        }
                    },
                    _ => (Err(SpecTypeDeclError::UnsupportedKeyType), pops),
                }
            },
        }
    }
}

/// A fragment whose prefix already failed keeps that failure.
pub proof fn lemma_parse_fragment_err_extends(entries: Seq<(DocValue, DocValue)>, i: int)
    requires
        0 <= i <= entries.len(),
        spec_parse_fragment(entries.subrange(0, i)).0 is Err,
    ensures
        spec_parse_fragment(entries) == spec_parse_fragment(entries.subrange(0, i)),
    decreases entries.len() - i,
{
    if i < entries.len() {
        assert(entries.subrange(0, i + 1).drop_last() =~= entries.subrange(0, i));
        assert(entries.subrange(0, i + 1).len() != 0);
        lemma_parse_fragment_err_extends(entries, i + 1);
    } else {
        assert(entries.subrange(0, i) =~= entries);
    }
}

/// Parse a list of composed sources in order: a failed import becomes
/// one per-item failure, a loaded fragment contributes its declarations,
/// and a fragment that is not a mapping aborts the run.
pub open spec fn spec_parse_sources(sources: Seq<Result<DocValue, ImportError>>) -> (
    Result<Seq<Result<SpecTypeDecl, SpecTypeDeclError>>, SpecTypeDeclError>,
    Seq<SpecTrackerOp>,
)
    decreases sources.len(),
{
    if sources.len() == 0 {
        (Ok(Seq::empty()), Seq::empty())
    } else {
        let (pr, pops) = spec_parse_sources(sources.drop_last());
        match pr {
            Err(e) => (Err(e), pops),
            Ok(rs) => match sources.last() {
                Err(ie) => (
                    Ok(rs.push(Err(SpecTypeDeclError::ImportFailure(view_import_err(ie))))),
                    pops,
                ),
                Ok(frag) => match frag {
                    DocValue::Hash(m) => {
                        let (fr, fops) = spec_parse_fragment(m@);
                        match fr {
                            Err(e) => (Err(e), pops + fops),
                            Ok(frs) => (Ok(rs + frs), pops + fops),
                        }
                    },
                    _ => (Err(SpecTypeDeclError::UnsupportedTypeDeclaration), pops),
                },
            },
        }
    }
}

/// A source list whose prefix already failed keeps that failure.
pub proof fn lemma_parse_sources_err_extends(sources: Seq<Result<DocValue, ImportError>>, i: int)
    requires
        0 <= i <= sources.len(),
        spec_parse_sources(sources.subrange(0, i)).0 is Err,
    ensures
        spec_parse_sources(sources) == spec_parse_sources(sources.subrange(0, i)),
    decreases sources.len() - i,
{
    if i < sources.len() {
        assert(sources.subrange(0, i + 1).drop_last() =~= sources.subrange(0, i));
        assert(sources.subrange(0, i + 1).len() != 0);
        lemma_parse_sources_err_extends(sources, i + 1);
    } else {
        assert(sources.subrange(0, i) =~= sources);
    }
}

/// What parsing a types section yields: the main node's own entries
/// first, then each imported fragment in order.
pub open spec fn spec_parse_types(main: DocValue, imported: Seq<Result<DocValue, ImportError>>) -> (
    Result<Seq<Result<SpecTypeDecl, SpecTypeDeclError>>, SpecTypeDeclError>,
    Seq<SpecTrackerOp>,
)
{
    match main {
        DocValue::Hash(_) => spec_parse_sources(seq![Ok(main)] + imported),
        _ => (
            Err(SpecTypeDeclError::ImportFailure(SpecImportError::InvalidInputSource)),
            Seq::empty(),
        ),
    }
}

/// Parse the entries of one fragment (see [`spec_parse_fragment`]).
#[verifier::loop_isolation(false)]
fn parse_fragment(entries: &DocMap, types_usage: &mut Tracker) -> (r: Result<TypeDeclResults, TypeDeclError>)
    ensures
        ({
            let (fr, fops) = spec_parse_fragment(entries@);
            &&& final(types_usage)@ == tr_apply_all(old(types_usage)@, fops)
            &&& match r {
                Ok(v) => fr == Ok::<_, SpecTypeDeclError>(view_type_results(v@)),
                Err(e) => fr == Err::<Seq<Result<SpecTypeDecl, SpecTypeDeclError>>, _>(view_type_err(e)),
            }
        }),
{
    let ghost st0 = types_usage@;
    let mut out: TypeDeclResults = Vec::new();
    proof {
        assert(entries@.subrange(0, 0) =~= Seq::<(DocValue, DocValue)>::empty());
        assert(view_type_results(out@) =~= Seq::<Result<SpecTypeDecl, SpecTypeDeclError>>::empty());
    }
    let n = entries.len();
    let mut i: usize = 0;
    while i < n
        invariant
            i <= n,
            n == entries@.len(),
            ({
                let (fr, fops) = spec_parse_fragment(entries@.subrange(0, i as int));
                &&& fr == Ok::<_, SpecTypeDeclError>(view_type_results(out@))
                &&& types_usage@ == tr_apply_all(st0, fops)
            }),
        decreases n - i,
    {
        let ghost pre = entries@.subrange(0, i as int);
        let ghost post = entries@.subrange(0, i as int + 1);
        proof {
            assert(post.drop_last() =~= pre);
            assert(post.last() == entries@[i as int]);
        }
        match &entries[i].0 {
            DocValue::Str(kname) => {
                if !crate::doc::str_eq(kname.as_str(), "_import") {
                    match &entries[i].1 {
                        DocValue::Hash(m) => {
                            let parser = TypeParser {
                                key: kname.clone(),
                                source: TypeDeclSource::Type(i),
                            };
                            let ghost pops = spec_parse_fragment(pre).1;
                            let result = parser.parse(m, types_usage);
                            let ghost tops = spec_parse_type_decl(
                                kname@,
                                m@,
                                spec_site_of(TypeDeclSource::Type(i)),
                            ).1;
                            proof {
                                lemma_tr_apply_all_concat(st0, pops, tops);
                            }
                            let ghost outv = out@;
                            out.push(result);
                            proof {
                                assert(out@.drop_last() =~= outv);
                            }
                        },
                        _ => {
                            let ghost outv = out@;
                            out.push(Err(TypeDeclError::UnsupportedTypeDeclaration));
                            proof {
                                assert(out@.drop_last() =~= outv);
                            }
                        },
                    }
                }
            },
            _ => {
                proof {
                    lemma_parse_fragment_err_extends(entries@, i as int + 1);
                }
                return Err(TypeDeclError::UnsupportedKeyType);
            },
        }
        i += 1;
    }
    proof {
        assert(entries@.subrange(0, n as int) =~= entries@);
    }
    Ok(out)
}

/// Parser for the `types` section of a schema: the main node plus the
/// already-loaded fragments its `_import` directive named.  Owns the
/// usage tracker for the types phase.
pub struct TypesParser {
    pub types_usage: Tracker,
}

impl TypesParser {
    /// Parse the main types node and its imported fragments, in order
    /// (see [`spec_parse_types`]).
    #[verifier::loop_isolation(false)]
    pub fn parse(&mut self, main: &DocValue, imported: &Vec<Result<DocValue, ImportError>>) -> (r: Result<
        TypeDeclResults,
        TypeDeclError,
    >)
        ensures
            ({
                let (sr, ops) = spec_parse_types(*main, imported@);
                &&& final(self).types_usage@ == tr_apply_all(old(self).types_usage@, ops)
                &&& sr == match r {
                    Ok(v) => Ok::<_, SpecTypeDeclError>(view_type_results(v@)),
                    Err(e) => Err::<Seq<Result<SpecTypeDecl, SpecTypeDeclError>>, _>(view_type_err(e)),
                }
            }),
    {
        let ghost st0 = self.types_usage@;
        let entries = match main {
            DocValue::Hash(m) => m,
            _ => {
                return Err(TypeDeclError::ImportFailure(ImportError::InvalidInputSource));
            },
        };
        let ghost sources = seq![Ok::<DocValue, ImportError>(*main)] + imported@;
        let ghost s1 = sources.subrange(0, 1);
        proof {
            assert(s1.drop_last() =~= Seq::<Result<DocValue, ImportError>>::empty());
            assert(s1.last() == Ok::<DocValue, ImportError>(*main));
            assert(spec_parse_sources(Seq::<Result<DocValue, ImportError>>::empty()) == (
                Ok::<Seq<Result<SpecTypeDecl, SpecTypeDeclError>>, SpecTypeDeclError>(Seq::empty()),
                Seq::<SpecTrackerOp>::empty(),
            ));
        }
        let mut results = match parse_fragment(entries, &mut self.types_usage) {
            Ok(v) => v,
            Err(e) => {
                proof {
                    let (fr, fops) = spec_parse_fragment(entries@);
                    assert(spec_parse_sources(s1) == (
                        Err::<Seq<Result<SpecTypeDecl, SpecTypeDeclError>>, _>(view_type_err(e)),
                        Seq::<SpecTrackerOp>::empty() + fops,
                    ));
                    assert(Seq::<SpecTrackerOp>::empty() + fops =~= fops);
                    lemma_parse_sources_err_extends(sources, 1);
                }
                return Err(e);
            },
        };
        proof {
            let (fr, fops) = spec_parse_fragment(entries@);
            assert(Seq::<SpecTrackerOp>::empty() + fops =~= fops);
            assert(Seq::<Result<SpecTypeDecl, SpecTypeDeclError>>::empty() + view_type_results(results@)
                =~= view_type_results(results@));
        }
        let n = imported.len();
        let mut i: usize = 0;
        while i < n
            invariant
                i <= n,
                n == imported@.len(),
                sources == seq![Ok::<DocValue, ImportError>(*main)] + imported@,
                sources.len() == 1 + n,
                ({
                    let (pr, pops) = spec_parse_sources(sources.subrange(0, 1 + i as int));
                    &&& pr == Ok::<_, SpecTypeDeclError>(view_type_results(results@))
                    &&& self.types_usage@ == tr_apply_all(st0, pops)
                }),
            decreases n - i,
        {
            let ghost pre = sources.subrange(0, 1 + i as int);
            let ghost post = sources.subrange(0, 1 + i as int + 1);
            proof {
                assert(post.drop_last() =~= pre);
                assert(post.last() == imported@[i as int]);
            }
            match &imported[i] {
                Err(ie) => {
                    let ghost resultsv = results@;
                    results.push(Err(TypeDeclError::ImportFailure(ie.duplicate())));
                    proof {
                        assert(results@.drop_last() =~= resultsv);
                    }
                },
                Ok(frag) => {
                    match frag {
                        DocValue::Hash(m) => {
                            let ghost pops = spec_parse_sources(pre).1;
                            let mut part = match parse_fragment(m, &mut self.types_usage) {
                                Ok(v) => v,
                                Err(e) => {
                                    proof {
                                        let (fr, fops) = spec_parse_fragment(m@);
                                        lemma_tr_apply_all_concat(st0, pops, fops);
                                        lemma_parse_sources_err_extends(sources, 1 + i as int + 1);
                                    }
                                    return Err(e);
                                },
                            };
                            let ghost fops = spec_parse_fragment(m@).1;
                            let ghost partv = part@;
                            let ghost resultsv = results@;
                            proof {
                                lemma_tr_apply_all_concat(st0, pops, fops);
                            }
                            results.append(&mut part);
                            proof {
                                lemma_view_type_results_concat(resultsv, partv);
                            }
                        },
                        _ => {
                            proof {
                                lemma_parse_sources_err_extends(sources, 1 + i as int + 1);
                            }
                            return Err(TypeDeclError::UnsupportedTypeDeclaration);
                        },
                    }
                },
            }
            i += 1;
        }
        proof {
            assert(sources.subrange(0, 1 + n as int) =~= sources);
        }
        Ok(results)
    }
}

/// Views distribute over concatenation of result lists.
pub proof fn lemma_view_type_results_concat(a: Seq<Result<TypeDecl, TypeDeclError>>, b: Seq<Result<TypeDecl, TypeDeclError>>)
    ensures
        view_type_results(a + b) == view_type_results(a) + view_type_results(b),
    decreases b.len(),
{
    if b.len() == 0 {
        assert(a + b =~= a);
        assert(view_type_results(a) + view_type_results(b) =~= view_type_results(a));
    } else {
        lemma_view_type_results_concat(a, b.drop_last());
        assert((a + b).drop_last() =~= a + b.drop_last());
        assert((a + b).last() == b.last());
        assert(view_type_results(a) + view_type_results(b) =~= (view_type_results(a) + view_type_results(
            b.drop_last(),
        )).push(view_type_result(b.last())));
    }
}

/// `view_strings` is the element-wise view.
pub proof fn lemma_view_strings_index(ss: Seq<String>)
    ensures
        view_strings(ss).len() == ss.len(),
        forall|i: int| 0 <= i < ss.len() ==> (#[trigger] view_strings(ss)[i]) == ss[i]@,
    decreases ss.len(),
{
    if ss.len() > 0 {
        lemma_view_strings_index(ss.drop_last());
        assert(forall|i: int|
            0 <= i < ss.len() - 1 ==> (#[trigger] ss.drop_last()[i]) == ss[i]);
    }
}

} // verus!
