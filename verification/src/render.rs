//! Rendering a parsed type declaration back to its textual form, and the
//! round-trip law: re-parsing a rendered declaration yields the same
//! declaration.

use vstd::prelude::*;

use crate::schema::{Primitive, SpecDataType, SpecDataTypeDecl};
use crate::types::{
    ident_end, is_ident_char, is_ident_start_char, name_scan_end, scan_group, spec_parse_type_expr, spec_prim_of,
    spec_resolve_bare,
};

verus! {

// ---------------------------------------------------------------------
// Rendering
// ---------------------------------------------------------------------

/// The textual name of a primitive.
pub open spec fn prim_name(p: Primitive) -> Seq<char> {
    match p {
        Primitive::Int => seq!['i', 'n', 't'],
        Primitive::Double => seq!['d', 'o', 'u', 'b', 'l', 'e'],
        Primitive::Bool => seq!['b', 'o', 'o', 'l'],
        Primitive::Str => seq!['s', 't', 'r'],
    }
}

/// The textual form of a shape.  A nested record literal has no textual
/// form; it renders empty and is excluded from the round-trip law.
pub open spec fn render_shape(t: SpecDataType) -> Seq<char>
    decreases t,
{
    match t {
        SpecDataType::Primitive(p) => prim_name(p),
        SpecDataType::Array(e) => seq!['a', 'r', 'r', 'a', 'y', '['] + render_shape(*e) + seq![']'],
        SpecDataType::Dict(k, v) => seq!['d', 'i', 'c', 't', '['] + prim_name(k) + seq![',', ' '] + render_shape(*v)
            + seq![']'],
        SpecDataType::Object(n) => n,
        SpecDataType::ObjectDecl(_) => Seq::empty(),
    }
}

/// The textual form of a whole type expression: the shape, then `?` if
/// the property is optional.
pub open spec fn render_decl(d: SpecDataTypeDecl) -> Seq<char> {
    if d.is_required {
        render_shape(d.data_type)
    } else {
        render_shape(d.data_type) + seq!['?']
    }
}

// ---------------------------------------------------------------------
// Token regions
// ---------------------------------------------------------------------

/// Walk the region `[i, e)` of `s` from bracket depth `d`: the end depth,
/// or `None` if a `]` or `,` occurs at depth zero.
pub open spec fn region_depth(s: Seq<char>, i: int, e: int, d: int) -> Option<int>
    decreases e - i,
{
    if i >= e {
        Some(d)
    } else if s[i] == ']' {
        if d > 0 {
            region_depth(s, i + 1, e, d - 1)
        } else {
            None
        }
    } else if s[i] == ',' {
        if d > 0 {
            region_depth(s, i + 1, e, d)
        } else {
            None
        }
    } else if s[i] == '[' {
        region_depth(s, i + 1, e, d + 1)
    } else {
        region_depth(s, i + 1, e, d)
    }
}

/// A string that the group scanner consumes as exactly one token.
pub open spec fn token_clean(n: Seq<char>) -> bool {
    region_depth(n, 0, n.len() as int, 0) == Some(0int)
}

/// The region walk reads only the region's characters.
pub proof fn lemma_region_shift(s: Seq<char>, i: int, e: int, d: int, n: Seq<char>)
    requires
        0 <= i <= e <= s.len(),
        n == s.subrange(i, e),
    ensures
        region_depth(s, i, e, d) == region_depth(n, 0, n.len() as int, d),
    decreases e - i, 1int,
{
    if i < e {
        assert(n[0] == s[i]);
        assert(n.drop_first() =~= s.subrange(i + 1, e));
        lemma_region_shift_first(n, d);
        if s[i] == ']' {
            if d > 0 {
                lemma_region_shift(s, i + 1, e, d - 1, n.drop_first());
            }
        } else if s[i] == ',' {
            if d > 0 {
                lemma_region_shift(s, i + 1, e, d, n.drop_first());
            }
        } else if s[i] == '[' {
            lemma_region_shift(s, i + 1, e, d + 1, n.drop_first());
        } else {
            lemma_region_shift(s, i + 1, e, d, n.drop_first());
        }
    }
}

/// One step of the region walk in terms of `drop_first`.
proof fn lemma_region_shift_first(n: Seq<char>, d: int)
    requires
        n.len() > 0,
    ensures
        region_depth(n, 0, n.len() as int, d) == (if n[0] == ']' {
            if d > 0 {
                region_depth(n.drop_first(), 0, n.len() - 1, d - 1)
            } else {
                None
            }
        } else if n[0] == ',' {
            if d > 0 {
                region_depth(n.drop_first(), 0, n.len() - 1, d)
            } else {
                None
            }
        } else if n[0] == '[' {
            region_depth(n.drop_first(), 0, n.len() - 1, d + 1)
        } else {
            region_depth(n.drop_first(), 0, n.len() - 1, d)
        }),
    decreases n.len(), 0int,
{
    assert(n.drop_first() =~= n.subrange(1, n.len() as int));
    let d2 = if n[0] == ']' {
        d - 1
    } else if n[0] == '[' {
        d + 1
    } else {
        d
    };
    if (n[0] == ']' || n[0] == ',') && d <= 0 {
    } else {
        lemma_region_shift(n, 1, n.len() as int, d2, n.drop_first());
    }
}

/// Walking a split region is walking its parts in turn.
pub proof fn lemma_region_concat(s: Seq<char>, i: int, m: int, e: int, d: int)
    requires
        0 <= i <= m <= e,
    ensures
        region_depth(s, i, e, d) == (match region_depth(s, i, m, d) {
            Some(dm) => region_depth(s, m, e, dm),
            None => None,
        }),
    decreases m - i,
{
    if i < m {
        if s[i] == ']' {
            if d > 0 {
                lemma_region_concat(s, i + 1, m, e, d - 1);
            }
        } else if s[i] == ',' {
            if d > 0 {
                lemma_region_concat(s, i + 1, m, e, d);
            }
        } else if s[i] == '[' {
            lemma_region_concat(s, i + 1, m, e, d + 1);
        } else {
            lemma_region_concat(s, i + 1, m, e, d);
        }
    }
}

/// A legal walk stays legal, shifted up by any constant depth.
pub proof fn lemma_region_mono(s: Seq<char>, i: int, e: int, d: int, c: int, d2: int)
    requires
        region_depth(s, i, e, d) == Some(d2),
        c >= 0,
    ensures
        region_depth(s, i, e, d + c) == Some(d2 + c),
    decreases e - i,
{
    if i < e {
        if s[i] == ']' {
            lemma_region_mono(s, i + 1, e, d - 1, c, d2);
        } else if s[i] == ',' {
            lemma_region_mono(s, i + 1, e, d, c, d2);
        } else if s[i] == '[' {
            lemma_region_mono(s, i + 1, e, d + 1, c, d2);
        } else {
            lemma_region_mono(s, i + 1, e, d, c, d2);
        }
    }
}

/// Identifier characters never move the bracket depth.
pub proof fn lemma_region_ident(s: Seq<char>, i: int, e: int, d: int)
    requires
        0 <= i <= e <= s.len(),
        forall|j: int| i <= j < e ==> is_ident_char(#[trigger] s[j]),
    ensures
        region_depth(s, i, e, d) == Some(d),
    decreases e - i,
{
    if i < e {
        assert(!is_ident_char(']') && !is_ident_char(',') && !is_ident_char('['));
        lemma_region_ident(s, i + 1, e, d);
    }
}

// ---------------------------------------------------------------------
// Identifier runs
// ---------------------------------------------------------------------

/// The identifier run from `i` ends exactly where identifier characters
/// stop.
pub proof fn lemma_ident_run(s: Seq<char>, i: int, e: int)
    requires
        0 <= i <= e <= s.len(),
        forall|j: int| i <= j < e ==> is_ident_char(#[trigger] s[j]),
        e == s.len() || !is_ident_char(s[e]),
    ensures
        ident_end(s, i) == e,
    decreases e - i,
{
    if i < e {
        lemma_ident_run(s, i + 1, e);
    }
}

/// What a finished identifier run guarantees.
pub proof fn lemma_ident_end_props(s: Seq<char>, i: int)
    requires
        0 <= i <= s.len(),
    ensures
        i <= ident_end(s, i) <= s.len(),
        forall|j: int| i <= j < ident_end(s, i) ==> is_ident_char(#[trigger] s[j]),
        ident_end(s, i) == s.len() || !is_ident_char(s[ident_end(s, i)]),
    decreases s.len() - i,
{
    if i < s.len() && is_ident_char(s[i]) {
        lemma_ident_end_props(s, i + 1);
    }
}

// ---------------------------------------------------------------------
// Keyword texts
// ---------------------------------------------------------------------

/// The concrete characters of the grammar's keywords.
pub proof fn lemma_keyword_facts()
    ensures
        "str"@ == seq!['s', 't', 'r'],
        "bool"@ == seq!['b', 'o', 'o', 'l'],
        "int"@ == seq!['i', 'n', 't'],
        "double"@ == seq!['d', 'o', 'u', 'b', 'l', 'e'],
        "array"@ == seq!['a', 'r', 'r', 'a', 'y'],
        "dict"@ == seq!['d', 'i', 'c', 't'],
{
    reveal_strlit("str");
    reveal_strlit("bool");
    reveal_strlit("int");
    reveal_strlit("double");
    reveal_strlit("array");
    reveal_strlit("dict");
    assert("str"@ =~= seq!['s', 't', 'r']);
    assert("bool"@ =~= seq!['b', 'o', 'o', 'l']);
    assert("int"@ =~= seq!['i', 'n', 't']);
    assert("double"@ =~= seq!['d', 'o', 'u', 'b', 'l', 'e']);
    assert("array"@ =~= seq!['a', 'r', 'r', 'a', 'y']);
    assert("dict"@ =~= seq!['d', 'i', 'c', 't']);
}

/// A rendered primitive name resolves back to that primitive.
pub proof fn lemma_prim_name_resolves(p: Primitive)
    ensures
        spec_prim_of(prim_name(p)) == Some(p),
        prim_name(p).len() > 0,
        forall|j: int| 0 <= j < prim_name(p).len() ==> is_ident_char(#[trigger] prim_name(p)[j]),
        is_ident_start_char(prim_name(p)[0]),
{
    lemma_keyword_facts();
    match p {
        Primitive::Int => {
            assert(prim_name(p) =~= "int"@);
        },
        Primitive::Double => {
            assert(prim_name(p) =~= "double"@);
        },
        Primitive::Bool => {
            assert(prim_name(p) =~= "bool"@);
        },
        Primitive::Str => {
            assert(prim_name(p) =~= "str"@);
        },
    }
}

// ---------------------------------------------------------------------
// Well-formed shapes: exactly what the parser can produce
// ---------------------------------------------------------------------

/// A name standing as a named reference in array-element position: any
/// single scanner token that is not a built-in.
pub open spec fn bare_name_wf(n: Seq<char>) -> bool {
    &&& n.len() > 0
    &&& token_clean(n)
    &&& spec_prim_of(n) is None
    &&& n != "array"@
    &&& n != "dict"@
}

/// A name standing as a named reference at expression level: a plain
/// identifier that is not a built-in.
pub open spec fn ident_name_wf(n: Seq<char>) -> bool {
    &&& n.len() > 0
    &&& is_ident_start_char(n[0])
    &&& (forall|j: int| 0 <= j < n.len() ==> is_ident_char(#[trigger] n[j]))
    &&& spec_prim_of(n) is None
    &&& n != "array"@
    &&& n != "dict"@
}

/// An array element: the parser resolves it as a bare token, so only a
/// primitive or a named reference can stand there.
pub open spec fn elem_wf(e: SpecDataType) -> bool {
    match e {
        SpecDataType::Primitive(_) => true,
        SpecDataType::Object(n) => bare_name_wf(n),
        _ => false,
    }
}

/// The shapes the type-expression parser can produce.
pub open spec fn shape_wf(t: SpecDataType) -> bool
    decreases t,
{
    match t {
        SpecDataType::Primitive(_) => true,
        SpecDataType::Array(e) => elem_wf(*e),
        SpecDataType::Dict(_, v) => shape_wf(*v),
        SpecDataType::Object(n) => ident_name_wf(n),
        SpecDataType::ObjectDecl(_) => false,
    }
}

/// An identifier-only name is a clean token.
pub proof fn lemma_ident_name_clean(n: Seq<char>)
    requires
        ident_name_wf(n),
    ensures
        token_clean(n),
{
    lemma_region_ident(n, 0, n.len() as int, 0);
}

/// A rendered well-formed shape is a clean token.
pub proof fn lemma_render_clean(t: SpecDataType)
    requires
        shape_wf(t),
    ensures
        token_clean(render_shape(t)),
    decreases t,
{
    let r = render_shape(t);
    match t {
        SpecDataType::Primitive(p) => {
            lemma_prim_name_resolves(p);
            lemma_region_ident(r, 0, r.len() as int, 0);
        },
        SpecDataType::Array(e) => {
            let inner = render_shape(*e);
            let head = seq!['a', 'r', 'r', 'a', 'y', '['];
            assert(region_depth(inner, 0, inner.len() as int, 1) == Some(1int)) by {
                match *e {
                    SpecDataType::Primitive(p) => {
                        lemma_prim_name_resolves(p);
                        lemma_region_ident(inner, 0, inner.len() as int, 1);
                    },
                    SpecDataType::Object(n) => {
                        lemma_region_mono(inner, 0, inner.len() as int, 0, 1, 0);
                    },
                    _ => {
                        assert(false);
                    },
                }
            }
            assert(r =~= head + inner + seq![']']);
            lemma_bracketed_clean(head, inner, r);
        },
        SpecDataType::Dict(k, v) => {
            let kname = prim_name(k);
            let inner = kname + seq![',', ' '] + render_shape(*v);
            let head = seq!['d', 'i', 'c', 't', '['];
            lemma_render_clean(*v);
            assert(region_depth(inner, 0, inner.len() as int, 1) == Some(1int)) by {
                lemma_prim_name_resolves(k);
                let e1 = kname.len() as int;
                let e2 = e1 + 2;
                let e3 = inner.len() as int;
                assert(inner.subrange(0, e1) =~= kname);
                lemma_region_shift(inner, 0, e1, 1, kname);
                lemma_region_ident(kname, 0, kname.len() as int, 1);
                assert(region_depth(inner, e1, e2, 1) == Some(1int)) by {
                    assert(inner[e1] == ',');
                    assert(inner[e1 + 1] == ' ');
                    assert(region_depth(inner, e2, e2, 1) == Some(1int));
                    assert(region_depth(inner, e1 + 1, e2, 1) == Some(1int));
                }
                assert(inner.subrange(e2, e3) =~= render_shape(*v));
                lemma_region_shift(inner, e2, e3, 1, render_shape(*v));
                lemma_region_mono(render_shape(*v), 0, render_shape(*v).len() as int, 0, 1, 0);
                lemma_region_concat(inner, e2, e3, e3, 1);
                lemma_region_concat(inner, e1, e2, e3, 1);
                lemma_region_concat(inner, 0, e1, e3, 1);
                // The whole inner region walks from depth 1 to depth 1;
                // monotonicity gives the depth-0 walk... it starts at 1
                // because it stands inside the printed brackets.
                assert(region_depth(inner, 0, e3, 1) == Some(1int));
            }
            assert(r =~= head + inner + seq![']']);
            lemma_bracketed_clean(head, inner, r);
        },
        SpecDataType::Object(n) => {
            lemma_ident_name_clean(n);
        },
        SpecDataType::ObjectDecl(_) => {
            assert(false);
        },
    }
}

/// `head [ inner ]` is a clean token when `inner` is.
proof fn lemma_bracketed_clean(head: Seq<char>, inner: Seq<char>, r: Seq<char>)
    requires
        r == head + inner + seq![']'],
        head.len() > 0,
        head.last() == '[',
        forall|j: int| 0 <= j < head.len() - 1 ==> is_ident_char(#[trigger] head[j]),
        region_depth(inner, 0, inner.len() as int, 1) == Some(1int),
    ensures
        token_clean(r),
{
    let hl = head.len() as int;
    let e2 = hl + inner.len() as int;
    let e3 = r.len() as int;
    assert(region_depth(r, 0, hl, 0) == Some(1int)) by {
        lemma_region_ident(r, 0, hl - 1, 0);
        assert(r[hl - 1] == '[');
        assert(region_depth(r, hl, hl, 1) == Some(1int));
        assert(region_depth(r, hl - 1, hl, 0) == Some(1int));
        lemma_region_concat(r, 0, hl - 1, hl, 0);
    }
    assert(r.subrange(hl, e2) =~= inner);
    lemma_region_shift(r, hl, e2, 1, inner);
    assert(region_depth(r, hl, e2, 1) == Some(1int));
    assert(r[e2] == ']');
    assert(e3 == e2 + 1);
    assert(region_depth(r, e2 + 1, e3, 0) == Some(0int));
    assert(region_depth(r, e2, e3, 1) == Some(0int));
    lemma_region_concat(r, hl, e2, e3, 1);
    lemma_region_concat(r, 0, hl, e3, 0);
}

// ---------------------------------------------------------------------
// The scanner against clean regions
// ---------------------------------------------------------------------

/// The group scanner walks straight over a legal region, gathering its
/// characters into the current token; the bracket depth tracks the
/// region walk, offset by the group's own level.
pub proof fn lemma_scan_region(s: Seq<char>, i: int, e: int, d: int, d2: int, cur: Seq<char>, acc: Seq<Seq<char>>)
    requires
        0 <= i <= e <= s.len(),
        d >= 0,
        region_depth(s, i, e, d) == Some(d2),
    ensures
        d2 >= 0,
        scan_group(s, i, 1 + d, cur, acc) == scan_group(s, e, 1 + d2, cur + s.subrange(i, e), acc),
    decreases e - i,
{
    if i >= e {
        assert(cur + s.subrange(i, e) =~= cur);
    } else {
        if s[i] == ']' {
            lemma_scan_region(s, i + 1, e, d - 1, d2, cur.push(']'), acc);
            assert(cur.push(']') + s.subrange(i + 1, e) =~= cur + s.subrange(i, e));
        } else if s[i] == ',' {
            lemma_scan_region(s, i + 1, e, d, d2, cur.push(','), acc);
            assert(cur.push(',') + s.subrange(i + 1, e) =~= cur + s.subrange(i, e));
        } else if s[i] == '[' {
            lemma_scan_region(s, i + 1, e, d + 1, d2, cur.push('['), acc);
            assert(cur.push('[') + s.subrange(i + 1, e) =~= cur + s.subrange(i, e));
        } else {
            lemma_scan_region(s, i + 1, e, d, d2, cur.push(s[i]), acc);
            assert(cur.push(s[i]) + s.subrange(i + 1, e) =~= cur + s.subrange(i, e));
        }
    }
}

/// One more character extends a region walk by one step.
proof fn lemma_region_push(n: Seq<char>, c: char, d0: int)
    requires
        region_depth(n, 0, n.len() as int, 0) == Some(d0),
    ensures
        region_depth(n.push(c), 0, n.len() as int + 1, 0) == (if c == ']' {
            if d0 > 0 {
                Some(d0 - 1)
            } else {
                None
            }
        } else if c == ',' {
            if d0 > 0 {
                Some(d0)
            } else {
                None
            }
        } else if c == '[' {
            Some(d0 + 1)
        } else {
            Some(d0)
        }),
{
    let n2 = n.push(c);
    let l = n.len() as int;
    assert(n2.subrange(0, l) =~= n);
    lemma_region_shift(n2, 0, l, 0, n);
    assert(n2[l] == c);
    assert(region_depth(n2, l + 1, l + 1, d0 - 1) == Some(d0 - 1));
    assert(region_depth(n2, l + 1, l + 1, d0) == Some(d0));
    assert(region_depth(n2, l + 1, l + 1, d0 + 1) == Some(d0 + 1));
    lemma_region_concat(n2, 0, l, l + 1, 0);
}

/// Every token a successful scan yields is a clean token, provided the
/// current token's gathered text matches the current depth.
pub proof fn lemma_scan_tokens_clean(s: Seq<char>, i: int, depth: int, cur: Seq<char>, acc: Seq<Seq<char>>)
    requires
        0 <= i,
        depth >= 1,
        scan_group(s, i, depth, cur, acc) is Some,
        region_depth(cur, 0, cur.len() as int, 0) == Some(depth - 1),
        forall|k: int| 0 <= k < acc.len() ==> token_clean(#[trigger] acc[k]),
    ensures
        ({
            let (toks, j) = scan_group(s, i, depth, cur, acc)->Some_0;
            forall|k: int| 0 <= k < toks.len() ==> token_clean(#[trigger] toks[k])
        }),
    decreases s.len() - i,
{
    let (toks, j) = scan_group(s, i, depth, cur, acc)->Some_0;
    if s[i] == ']' && depth == 1 {
        assert(toks == acc.push(cur));
        assert(token_clean(cur));
        assert(forall|k: int| 0 <= k < acc.len() ==> toks[k] == acc[k]);
        assert(toks[acc.len() as int] == cur);
    } else if s[i] == ']' {
        lemma_region_push(cur, ']', depth - 1);
        lemma_scan_tokens_clean(s, i + 1, depth - 1, cur.push(']'), acc);
    } else if s[i] == ',' && depth == 1 {
        assert(token_clean(cur));
        let acc2 = acc.push(cur);
        assert(forall|k: int| 0 <= k < acc2.len() ==> token_clean(#[trigger] acc2[k])) by {
            assert(forall|k: int| 0 <= k < acc.len() ==> acc2[k] == acc[k]);
            assert(acc2[acc.len() as int] == cur);
        }
        assert(region_depth(Seq::<char>::empty(), 0, 0, 0) == Some(0int));
        lemma_scan_tokens_clean(s, i + 2, depth, Seq::empty(), acc2);
    } else if s[i] == '[' {
        lemma_region_push(cur, '[', depth - 1);
        lemma_scan_tokens_clean(s, i + 1, depth + 1, cur.push('['), acc);
    } else {
        lemma_region_push(cur, s[i], depth - 1);
        lemma_scan_tokens_clean(s, i + 1, depth, cur.push(s[i]), acc);
    }
}

// ---------------------------------------------------------------------
// Parser soundness: every parsed shape is well-formed
// ---------------------------------------------------------------------

/// Whatever the type-expression parser accepts is a well-formed shape.
pub proof fn lemma_parse_wf(s: Seq<char>)
    ensures
        (match spec_parse_type_expr(s).0 {
            Ok(d) => shape_wf(d.data_type),
            Err(_) => true,
        }),
    decreases s.len(),
{
    if s.len() == 0 {
    } else {
        let ne = name_scan_end(s);
        if ne == 0 {
        } else {
            let name = s.subrange(0, ne);
            lemma_ident_end_props(s, 1);
            assert(ne <= s.len());
            assert(forall|j: int| 0 <= j < name.len() ==> is_ident_char(#[trigger] name[j])) by {
                assert(forall|j: int| 1 <= j < ne ==> is_ident_char(#[trigger] s[j]));
                assert(is_ident_start_char(s[0]));
                assert(forall|j: int| 0 <= j < ne ==> name[j] == s[j]);
            }
            assert(is_ident_start_char(name[0]));
            if ne < s.len() && s[ne] == '[' {
                match scan_group(s, ne + 1, 1, Seq::empty(), Seq::empty()) {
                    None => {},
                    Some((toks, j)) => {
                        if exists|k: int| 0 <= k < toks.len() && (#[trigger] toks[k]).len() == 0 {
                        } else {
                            assert(region_depth(Seq::<char>::empty(), 0, 0, 0) == Some(0int));
                            lemma_scan_tokens_clean(s, ne + 1, 1, Seq::empty(), Seq::empty());
                            match spec_prim_of(name) {
                                Some(_) => {},
                                None => {
                                    if name == "array"@ {
                                        if toks.len() == 1 {
                                            assert(toks[0].len() != 0);
                                            assert(token_clean(toks[0]));
                                        }
                                    } else if name == "dict"@ {
                                        if toks.len() == 2 {
                                            crate::types::lemma_scan_group_bounds(
                                                s,
                                                ne + 1,
                                                1,
                                                Seq::empty(),
                                                Seq::empty(),
                                                0,
                                            );
                                            lemma_parse_wf(toks[1]);
                                        }
                                    } else {
                                    }
                                },
                            }
                        }
                    },
                }
            } else {
            }
        }
    }
}

// ---------------------------------------------------------------------
// Render correctness: a rendered well-formed shape parses back
// ---------------------------------------------------------------------

/// Parsing the rendering of a well-formed shape (with `?` appended when
/// the declaration is optional) gives back exactly that declaration.
#[verifier::rlimit(100)]
#[verifier::spinoff_prover]
pub proof fn lemma_render_parses(t: SpecDataType, req: bool)
    requires
        shape_wf(t),
    ensures
        ({
            let s = if req {
                render_shape(t)
            } else {
                render_shape(t) + seq!['?']
            };
            spec_parse_type_expr(s).0 == Ok::<SpecDataTypeDecl, crate::schema::SpecTypeDeclError>(
                SpecDataTypeDecl { data_type: t, is_required: req },
            )
        }),
    decreases t,
{
    let base = render_shape(t);
    let s = if req {
        base
    } else {
        base + seq!['?']
    };
    let bl = base.len() as int;
    assert(s.subrange(0, bl) =~= base);
    assert(!is_ident_char('?'));
    assert(!is_ident_char('['));
    match t {
        SpecDataType::Primitive(p) => {
            lemma_prim_name_resolves(p);
            assert(forall|j: int| 0 <= j < bl ==> s[j] == base[j]);
            lemma_ident_run(s, 1, bl);
            assert(name_scan_end(s) == bl);
            assert(s.subrange(0, bl) == base);
            assert(spec_prim_of(base) == Some(p));
            if !req {
                assert(s[bl] == '?');
            }
        },
        SpecDataType::Object(n) => {
            assert(forall|j: int| 0 <= j < bl ==> s[j] == n[j]);
            lemma_ident_run(s, 1, bl);
            assert(name_scan_end(s) == bl);
            assert(s.subrange(0, bl) == n);
            if !req {
                assert(s[bl] == '?');
            }
        },
        SpecDataType::Array(e) => {
            let inner = render_shape(*e);
            let il = inner.len() as int;
            let head = seq!['a', 'r', 'r', 'a', 'y', '['];
            assert(base =~= head + inner + seq![']']);
            // The leading name is `array`.
            assert(s.subrange(0, 5) =~= seq!['a', 'r', 'r', 'a', 'y']);
            assert(forall|j: int| 0 <= j < 5 ==> s[j] == seq!['a', 'r', 'r', 'a', 'y'][j]);
            assert(s[5] == '[');
            lemma_ident_run(s, 1, 5);
            assert(name_scan_end(s) == 5);
            lemma_keyword_facts();
            let name = s.subrange(0, 5);
            assert(name == "array"@);
            assert(spec_prim_of(name) is None);
            assert(name != "dict"@);
            // The group scanner consumes the rendered element as one token.
            let e2 = 6 + il;
            assert(s.subrange(6, e2) =~= inner);
            assert(token_clean(inner) && inner.len() > 0) by {
                match *e {
                    SpecDataType::Primitive(p) => {
                        lemma_prim_name_resolves(p);
                        lemma_region_ident(inner, 0, il, 0);
                    },
                    SpecDataType::Object(n2) => {},
                    _ => {
                        assert(false);
                    },
                }
            }
            lemma_region_shift(s, 6, e2, 0, inner);
            lemma_scan_region(s, 6, e2, 0, 0, Seq::empty(), Seq::empty());
            assert(Seq::<char>::empty() + s.subrange(6, e2) =~= inner);
            assert(s[e2] == ']');
            let toks = Seq::<Seq<char>>::empty().push(inner);
            assert(scan_group(s, e2, 1, inner, Seq::empty()) == Some((toks, e2 + 1)));
            assert(scan_group(s, 6, 1, Seq::empty(), Seq::empty()) == Some((toks, e2 + 1)));
            // No empty token.
            assert(forall|k: int| 0 <= k < toks.len() ==> (#[trigger] toks[k]).len() != 0);
            // The element resolves back.
            assert(toks[0] == inner);
            match *e {
                SpecDataType::Primitive(p) => {
                    lemma_prim_name_resolves(p);
                    assert(spec_resolve_bare(inner).0 == Ok::<SpecDataType, crate::schema::SpecTypeDeclError>(SpecDataType::Primitive(p)));
                },
                SpecDataType::Object(n2) => {
                    assert(spec_resolve_bare(inner).0 == Ok::<SpecDataType, crate::schema::SpecTypeDeclError>(SpecDataType::Object(n2)));
                },
                _ => {
                    assert(false);
                },
            }
            assert(Box::new(*e) == e);
            // The trailing `?` drives the required flag.
            if req {
                assert(e2 + 1 == s.len());
            } else {
                assert(s[e2 + 1] == '?');
            }
        },
        SpecDataType::Dict(k, v) => {
            let kname = prim_name(k);
            let kl = kname.len() as int;
            let rv = render_shape(*v);
            let rl = rv.len() as int;
            let head = seq!['d', 'i', 'c', 't', '['];
            assert(base =~= head + kname + seq![',', ' '] + rv + seq![']']);
            lemma_prim_name_resolves(k);
            lemma_render_clean(*v);
            lemma_render_nonempty(*v);
            lemma_render_parses(*v, true);
            // The leading name is `dict`.
            assert(s.subrange(0, 4) =~= seq!['d', 'i', 'c', 't']);
            assert(forall|j: int| 0 <= j < 4 ==> s[j] == seq!['d', 'i', 'c', 't'][j]);
            assert(s[4] == '[');
            lemma_ident_run(s, 1, 4);
            assert(name_scan_end(s) == 4);
            lemma_keyword_facts();
            let name = s.subrange(0, 4);
            assert(name == "dict"@);
            assert(spec_prim_of(name) is None);
            assert(name != "array"@);
            // The scanner gathers the key name, splits at the comma, then
            // gathers the rendered value.
            let m1 = 5 + kl;
            let m2 = m1 + 2;
            let e2 = m2 + rl;
            assert(s.subrange(5, m1) =~= kname);
            lemma_region_ident(kname, 0, kl, 0);
            lemma_region_shift(s, 5, m1, 0, kname);
            lemma_scan_region(s, 5, m1, 0, 0, Seq::empty(), Seq::empty());
            assert(Seq::<char>::empty() + s.subrange(5, m1) =~= kname);
            assert(s[m1] == ',');
            assert(s[m1 + 1] == ' ');
            assert(m1 + 1 < s.len());
            let acc1 = Seq::<Seq<char>>::empty().push(kname);
            assert(scan_group(s, m1, 1, kname, Seq::empty()) == scan_group(s, m2, 1, Seq::empty(), acc1));
            assert(s.subrange(m2, e2) =~= rv);
            lemma_region_shift(s, m2, e2, 0, rv);
            lemma_scan_region(s, m2, e2, 0, 0, Seq::empty(), acc1);
            assert(Seq::<char>::empty() + s.subrange(m2, e2) =~= rv);
            assert(s[e2] == ']');
            let toks = acc1.push(rv);
            assert(scan_group(s, e2, 1, rv, acc1) == Some((toks, e2 + 1)));
            assert(scan_group(s, 5, 1, Seq::empty(), Seq::empty()) == Some((toks, e2 + 1)));
            // No empty token.
            assert(toks[0] == kname && toks[1] == rv);
            assert(forall|k2: int| 0 <= k2 < toks.len() ==> (#[trigger] toks[k2]).len() != 0);
            // The key resolves to its primitive, the value re-parses.
            assert(spec_prim_of(toks[0]) == Some(k));
            assert(spec_parse_type_expr(toks[1]).0 == Ok::<SpecDataTypeDecl, crate::schema::SpecTypeDeclError>(
                SpecDataTypeDecl { data_type: *v, is_required: true },
            ));
            assert(Box::new(*v) == v);
            if req {
                assert(e2 + 1 == s.len());
            } else {
                assert(s[e2 + 1] == '?');
            }
        },
        SpecDataType::ObjectDecl(_) => {
            assert(false);
        },
    }
}

/// The round-trip law: parsing a type expression, rendering the parsed
/// declaration and parsing again yields the same declaration.
pub proof fn lemma_parse_render_round_trip(s: Seq<char>)
    requires
        spec_parse_type_expr(s).0 is Ok,
    ensures
        spec_parse_type_expr(render_decl(spec_parse_type_expr(s).0->Ok_0)).0 == spec_parse_type_expr(s).0,
{
    let d = spec_parse_type_expr(s).0->Ok_0;
    lemma_parse_wf(s);
    lemma_render_parses(d.data_type, d.is_required);
    assert(d == SpecDataTypeDecl { data_type: d.data_type, is_required: d.is_required });
}

/// A rendered well-formed shape is never the empty string.
pub proof fn lemma_render_nonempty(t: SpecDataType)
    requires
        shape_wf(t),
    ensures
        render_shape(t).len() > 0,
{
    match t {
        SpecDataType::Primitive(p) => {
            lemma_prim_name_resolves(p);
        },
        _ => {},
    }
}

} // verus!
