//! The type-usage tracker: one table shared by the whole run, mapping a
//! type name to `None` once the name is declared, or to the list of
//! sites that referenced it while still undeclared.
//!
//! Every mutation is one of two operations — recording a reference or
//! recording a declaration — and the parsers' contracts describe their
//! whole effect as the fold [`tr_apply_all`] of an operation sequence.
//! Reconciliation at the end of a run reads the entries still holding a
//! non-empty site list: the dangling references.

use vstd::prelude::*;

use crate::schema::UnknownType;

verus! {

/// One tracker mutation: a reference to `name` from a site, or a
/// declaration of `name`.
pub ghost enum SpecTrackerOp {
    Ref(Seq<char>, UnknownType),
    Decl(Seq<char>),
}

/// The tracker's mathematical state: entries in first-mention order.
pub type SpecTrackerState = Seq<(Seq<char>, Option<Seq<UnknownType>>)>;

/// Index of the first entry for `name`, if any.
pub open spec fn tr_find(tr: SpecTrackerState, name: Seq<char>) -> Option<int>
    decreases tr.len(),
{
    if tr.len() == 0 {
        None
    } else if tr[0].0 == name {
        Some(0)
    } else {
        match tr_find(tr.drop_first(), name) {
            Some(i) => Some(i + 1),
            None => None,
        }
    }
}

/// Record a reference: append the site if the name is still undeclared,
/// drop it if the name is declared, create a fresh entry otherwise.
pub open spec fn tr_record_ref(tr: SpecTrackerState, name: Seq<char>, site: UnknownType) -> SpecTrackerState {
    match tr_find(tr, name) {
        None => tr.push((name, Some(seq![site]))),
        Some(i) => match tr[i].1 {
            Some(sites) => tr.update(i, (name, Some(sites.push(site)))),
            None => tr,
        },
    }
}

/// Record a declaration: the entry for `name` becomes `None`, overriding
/// any reference sites gathered so far.
pub open spec fn tr_record_decl(tr: SpecTrackerState, name: Seq<char>) -> SpecTrackerState {
    match tr_find(tr, name) {
        None => tr.push((name, None)),
        Some(i) => tr.update(i, (name, None)),
    }
}

pub open spec fn tr_apply(tr: SpecTrackerState, op: SpecTrackerOp) -> SpecTrackerState {
    match op {
        SpecTrackerOp::Ref(name, site) => tr_record_ref(tr, name, site),
        SpecTrackerOp::Decl(name) => tr_record_decl(tr, name),
    }
}

/// Apply `ops` left to right.
pub open spec fn tr_apply_all(tr: SpecTrackerState, ops: Seq<SpecTrackerOp>) -> SpecTrackerState
    decreases ops.len(),
{
    if ops.len() == 0 {
        tr
    } else {
        tr_apply(tr_apply_all(tr, ops.drop_last()), ops.last())
    }
}

/// Every site still unresolved, in entry order.
pub open spec fn tr_dangling(tr: SpecTrackerState) -> Seq<UnknownType>
    decreases tr.len(),
{
    if tr.len() == 0 {
        Seq::empty()
    } else {
        tr_dangling(tr.drop_last()) + (match tr.last().1 {
            Some(sites) => sites,
            None => Seq::empty(),
        })
    }
}

/// Splitting an operation sequence splits its fold.
pub proof fn lemma_tr_apply_all_concat(tr: SpecTrackerState, a: Seq<SpecTrackerOp>, b: Seq<SpecTrackerOp>)
    ensures
        tr_apply_all(tr, a + b) == tr_apply_all(tr_apply_all(tr, a), b),
    decreases b.len(),
{
    if b.len() == 0 {
        assert(a + b =~= a);
    } else {
        lemma_tr_apply_all_concat(tr, a, b.drop_last());
        assert((a + b).drop_last() =~= a + b.drop_last());
        assert((a + b).last() == b.last());
    }
}

// ---------------------------------------------------------------------
// The executable tracker
// ---------------------------------------------------------------------

/// The process-scoped usage table.  Exactly one lives per run, owned by
/// the resolver and threaded through the parsers.
pub struct Tracker {
    entries: Vec<(String, Option<Vec<UnknownType>>)>,
}

pub open spec fn view_tracker_entry(e: (String, Option<Vec<UnknownType>>)) -> (Seq<char>, Option<Seq<UnknownType>>) {
    (
        e.0@,
        match e.1 {
            Some(sites) => Some(sites@),
            None => None,
        },
    )
}

impl View for Tracker {
    type V = SpecTrackerState;

    closed spec fn view(&self) -> SpecTrackerState {
        Seq::new(self.entries@.len(), |i: int| view_tracker_entry(self.entries@[i]))
    }
}

/// If no prefix entry matches and entry `i` matches, the first match is `i`.
proof fn lemma_tr_find_at(tr: SpecTrackerState, name: Seq<char>, i: int)
    requires
        0 <= i < tr.len(),
        tr[i].0 == name,
        forall|j: int| 0 <= j < i ==> (#[trigger] tr[j].0) != name,
    ensures
        tr_find(tr, name) == Some(i),
    decreases tr.len(),
{
    if i > 0 {
        lemma_tr_find_at(tr.drop_first(), name, i - 1);
    }
}

/// If no entry matches, the search misses.
proof fn lemma_tr_find_none(tr: SpecTrackerState, name: Seq<char>)
    requires
        forall|j: int| 0 <= j < tr.len() ==> (#[trigger] tr[j].0) != name,
    ensures
        tr_find(tr, name) is None,
    decreases tr.len(),
{
    if tr.len() > 0 {
        lemma_tr_find_none(tr.drop_first(), name);
    }
}

/// What a successful search guarantees.
pub proof fn lemma_tr_find_props(tr: SpecTrackerState, name: Seq<char>)
    ensures
        match tr_find(tr, name) {
            Some(i) => 0 <= i < tr.len() && tr[i].0 == name && (forall|j: int|
                0 <= j < i ==> (#[trigger] tr[j].0) != name),
            None => forall|j: int| 0 <= j < tr.len() ==> (#[trigger] tr[j].0) != name,
        },
    decreases tr.len(),
{
    if tr.len() > 0 && tr[0].0 != name {
        lemma_tr_find_props(tr.drop_first(), name);
        match tr_find(tr.drop_first(), name) {
            Some(i) => {
                assert forall|j: int| 0 <= j < i + 1 implies (#[trigger] tr[j].0) != name by {
                    if j > 0 {
                        assert(tr.drop_first()[j - 1] == tr[j]);
                    }
                }
            },
            None => {
                assert forall|j: int| 0 <= j < tr.len() implies (#[trigger] tr[j].0) != name by {
                    if j > 0 {
                        assert(tr.drop_first()[j - 1] == tr[j]);
                    }
                }
            },
        }
    }
}

impl Tracker {
    /// A fresh, empty table.
    pub fn new() -> (r: Tracker)
        ensures
            r@ =~= Seq::<(Seq<char>, Option<Seq<UnknownType>>)>::empty(),
    {
        Tracker { entries: Vec::new() }
    }

    /// Index of the entry for `name`, if any.
    fn find_index(&self, name: &str) -> (r: Option<usize>)
        ensures
            match r {
                Some(i) => i < self.entries@.len() && tr_find(self@, name@) == Some(i as int),
                None => tr_find(self@, name@) is None,
            },
    {
        let n = self.entries.len();
        let mut i: usize = 0;
        while i < n
            invariant
                i <= n,
                n == self.entries@.len(),
                forall|j: int| 0 <= j < i ==> (#[trigger] self@[j].0) != name@,
            decreases n - i,
        {
            if crate::doc::str_eq(self.entries[i].0.as_str(), name) {
                proof {
                    lemma_tr_find_at(self@, name@, i as int);
                }
                return Some(i);
            }
            i += 1;
        }
        proof {
            lemma_tr_find_none(self@, name@);
        }
        None
    }

    /// Record one reference to `name` from `site`.
    pub fn record_reference(&mut self, name: &str, site: UnknownType)
        ensures
            final(self)@ == tr_record_ref(old(self)@, name@, site),
    {
        match self.find_index(name) {
            None => {
                self.entries.push((name.to_owned(), Some(vec![site])));
                proof {
                    assert(self@ =~~= old(self)@.push((name@, Some(seq![site]))));
                }
            },
            Some(i) => {
                let key = self.entries[i].0.clone();
                let mut sites: Vec<UnknownType> = Vec::new();
                let mut found_sites = false;
                match &self.entries[i].1 {
                    Some(old_sites) => {
                        found_sites = true;
                        let m = old_sites.len();
                        let mut k: usize = 0;
                        while k < m
                            invariant
                                k <= m,
                                m == old_sites@.len(),
                                sites@ =~= old_sites@.subrange(0, k as int),
                            decreases m - k,
                        {
                            sites.push(old_sites[k]);
                            k += 1;
                        }
                        proof {
                            assert(sites@ =~= old_sites@);
                        }
                    },
                    None => {},
                }
                if found_sites {
                    sites.push(site);
                    self.entries.set(i, (key, Some(sites)));
                    proof {
                        let ghost prev = old(self)@;
                        lemma_tr_find_props(prev, name@);
                        assert(self@ =~~= prev.update(
                            i as int,
                            (name@, Some(prev[i as int].1->Some_0.push(site))),
                        ));
                    }
                } else {
                    proof {
                        lemma_tr_find_props(old(self)@, name@);
                    }
                }
            },
        }
    }

    /// Record that `name` is declared.
    pub fn record_declaration(&mut self, name: &str)
        ensures
            final(self)@ == tr_record_decl(old(self)@, name@),
    {
        match self.find_index(name) {
            None => {
                self.entries.push((name.to_owned(), None));
                proof {
                    assert(self@ =~~= old(self)@.push((name@, None)));
                }
            },
            Some(i) => {
                let key = self.entries[i].0.clone();
                self.entries.set(i, (key, None));
                proof {
                    lemma_tr_find_props(old(self)@, name@);
                    assert(self@ =~~= old(self)@.update(
                        tr_find(old(self)@, name@)->Some_0,
                        (name@, None),
                    ));
                }
            },
        }
    }

    /// Every unresolved site, in entry order: the aggregate of what the
    /// run never declared.
    pub fn dangling(&self) -> (r: Vec<UnknownType>)
        ensures
            r@ == tr_dangling(self@),
    {
        let n = self.entries.len();
        let mut r: Vec<UnknownType> = Vec::new();
        let mut i: usize = 0;
        proof {
            assert(self@.subrange(0, 0) =~= Seq::<(Seq<char>, Option<Seq<UnknownType>>)>::empty());
        }
        while i < n
            invariant
                i <= n,
                n == self.entries@.len(),
                r@ =~= tr_dangling(self@.subrange(0, i as int)),
            decreases n - i,
        {
            let ghost pre = self@.subrange(0, i as int);
            match &self.entries[i].1 {
                Some(sites) => {
                    let m = sites.len();
                    let mut k: usize = 0;
                    while k < m
                        invariant
                            k <= m,
                            m == sites@.len(),
                            r@ =~= tr_dangling(pre) + sites@.subrange(0, k as int),
                        decreases m - k,
                    {
                        r.push(sites[k]);
                        k += 1;
                    }
                    proof {
                        assert(sites@.subrange(0, m as int) =~= sites@);
                    }
                },
                None => {},
            }
            proof {
                let ghost post = self@.subrange(0, i as int + 1);
                assert(post.drop_last() =~= pre);
                assert(post.last() == self@[i as int]);
            }
            i += 1;
        }
        proof {
            assert(self@.subrange(0, n as int) =~= self@);
        }
        r
    }
}

// ---------------------------------------------------------------------
// Reconciliation laws
// ---------------------------------------------------------------------

/// Whether `ops` declares `name` at some point.
pub open spec fn ops_has_decl(ops: Seq<SpecTrackerOp>, name: Seq<char>) -> bool {
    exists|i: int| 0 <= i < ops.len() && ops[i] == SpecTrackerOp::Decl(name)
}

/// Whether `ops` references `name` at some point.
pub open spec fn ops_has_ref(ops: Seq<SpecTrackerOp>, name: Seq<char>) -> bool {
    exists|i: int| 0 <= i < ops.len() && ((#[trigger] ops[i]) matches SpecTrackerOp::Ref(n, _) && n == name)
}

pub open spec fn ops_mentions(ops: Seq<SpecTrackerOp>, name: Seq<char>) -> bool {
    ops_has_decl(ops, name) || ops_has_ref(ops, name)
}

/// The sites referencing `name`, in operation order.
pub open spec fn ops_ref_sites(ops: Seq<SpecTrackerOp>, name: Seq<char>) -> Seq<UnknownType>
    decreases ops.len(),
{
    if ops.len() == 0 {
        Seq::empty()
    } else {
        ops_ref_sites(ops.drop_last(), name) + (match ops.last() {
            SpecTrackerOp::Ref(n, s) => if n == name {
                seq![s]
            } else {
                Seq::empty()
            },
            SpecTrackerOp::Decl(_) => Seq::empty(),
        })
    }
}

proof fn lemma_no_ref_no_sites(ops: Seq<SpecTrackerOp>, name: Seq<char>)
    requires
        !ops_has_ref(ops, name),
    ensures
        ops_ref_sites(ops, name) == Seq::<UnknownType>::empty(),
    decreases ops.len(),
{
    if ops.len() > 0 {
        assert(!ops_has_ref(ops.drop_last(), name)) by {
            if ops_has_ref(ops.drop_last(), name) {
                let i = choose|i: int|
                    0 <= i < ops.drop_last().len() && ((#[trigger] ops.drop_last()[i]) matches SpecTrackerOp::Ref(
                        n,
                        _,
                    ) && n == name);
                assert(ops[i] == ops.drop_last()[i]);
            }
        }
        lemma_no_ref_no_sites(ops.drop_last(), name);
        assert(ops.last() == ops[ops.len() - 1]);
        assert(ops_ref_sites(ops, name) =~= Seq::<UnknownType>::empty());
    }
}

proof fn lemma_tr_find_push(tr: SpecTrackerState, e: (Seq<char>, Option<Seq<UnknownType>>), name: Seq<char>)
    ensures
        tr_find(tr.push(e), name) == (match tr_find(tr, name) {
            Some(i) => Some(i),
            None => if e.0 == name {
                Some(tr.len() as int)
            } else {
                None
            },
        }),
    decreases tr.len(),
{
    if tr.len() == 0 {
        assert(tr.push(e)[0] == e);
        assert(tr.push(e).drop_first() =~= Seq::<(Seq<char>, Option<Seq<UnknownType>>)>::empty());
    } else {
        assert(tr.push(e).drop_first() =~= tr.drop_first().push(e));
        lemma_tr_find_push(tr.drop_first(), e, name);
    }
}

proof fn lemma_tr_find_update(tr: SpecTrackerState, i: int, v: (Seq<char>, Option<Seq<UnknownType>>), name: Seq<char>)
    requires
        0 <= i < tr.len(),
        v.0 == tr[i].0,
    ensures
        tr_find(tr.update(i, v), name) == tr_find(tr, name),
    decreases tr.len(),
{
    if i == 0 {
        if tr[0].0 != name {
            assert(tr.update(0, v).drop_first() =~= tr.drop_first());
        }
    } else {
        assert(tr.update(i, v).drop_first() =~= tr.drop_first().update(i - 1, v));
        lemma_tr_find_update(tr.drop_first(), i - 1, v, name);
    }
}

/// The invariant tying a tracker state to the operations that built it:
/// keys are unique, and each name's entry is exactly what the operations
/// mentioning it dictate.
pub open spec fn tracker_matches_ops(tr: SpecTrackerState, ops: Seq<SpecTrackerOp>) -> bool {
    &&& forall|i: int, j: int|
        0 <= i < j < tr.len() ==> (#[trigger] tr[i].0) != (#[trigger] tr[j].0)
    &&& forall|name: Seq<char>|
        match #[trigger] tr_find(tr, name) {
            None => !ops_mentions(ops, name),
            Some(i) => ops_mentions(ops, name) && tr[i].1 == (if ops_has_decl(ops, name) {
                None
            } else {
                Some(ops_ref_sites(ops, name))
            }),
        }
}

proof fn lemma_ops_push_facts(ops: Seq<SpecTrackerOp>, op: SpecTrackerOp, name: Seq<char>)
    ensures
        ops_has_decl(ops.push(op), name) == (ops_has_decl(ops, name) || op == SpecTrackerOp::Decl(name)),
        ops_has_ref(ops.push(op), name) == (ops_has_ref(ops, name) || (op matches SpecTrackerOp::Ref(n, _) && n
            == name)),
        ops_ref_sites(ops.push(op), name) == ops_ref_sites(ops, name) + (match op {
            SpecTrackerOp::Ref(n, s) => if n == name {
                seq![s]
            } else {
                Seq::<UnknownType>::empty()
            },
            SpecTrackerOp::Decl(_) => Seq::<UnknownType>::empty(),
        }),
{
    let all = ops.push(op);
    assert(all.drop_last() =~= ops);
    assert(all.last() == op);
    assert(all[all.len() - 1] == op);
    if ops_has_decl(ops, name) {
        let i = choose|i: int| 0 <= i < ops.len() && ops[i] == SpecTrackerOp::Decl(name);
        assert(all[i] == SpecTrackerOp::Decl(name));
    }
    if ops_has_decl(all, name) && !(op == SpecTrackerOp::Decl(name)) {
        let i = choose|i: int| 0 <= i < all.len() && all[i] == SpecTrackerOp::Decl(name);
        assert(ops[i] == SpecTrackerOp::Decl(name));
    }
    if ops_has_ref(ops, name) {
        let i = choose|i: int|
            0 <= i < ops.len() && ((#[trigger] ops[i]) matches SpecTrackerOp::Ref(n, _) && n == name);
        assert((#[trigger] all[i]) matches SpecTrackerOp::Ref(n, _) && n == name);
    }
    if ops_has_ref(all, name) && !(op matches SpecTrackerOp::Ref(n, _) && n == name) {
        let i = choose|i: int|
            0 <= i < all.len() && ((#[trigger] all[i]) matches SpecTrackerOp::Ref(n, _) && n == name);
        assert(i < ops.len());
        assert((#[trigger] ops[i]) matches SpecTrackerOp::Ref(n, _) && n == name);
    }
}

/// Folding one more operation preserves the invariant.
proof fn lemma_tracker_matches_step(tr: SpecTrackerState, ops: Seq<SpecTrackerOp>, op: SpecTrackerOp)
    requires
        tracker_matches_ops(tr, ops),
    ensures
        tracker_matches_ops(tr_apply(tr, op), ops.push(op)),
{
    let all = ops.push(op);
    let tr2 = tr_apply(tr, op);
    let opname = match op {
        SpecTrackerOp::Ref(n, _) => n,
        SpecTrackerOp::Decl(n) => n,
    };
    lemma_tr_find_props(tr, opname);
    // The new state: a push, an update at the found index, or unchanged.
    match tr_find(tr, opname) {
        None => {
            let e = match op {
                SpecTrackerOp::Ref(n, s) => (n, Some(seq![s])),
                SpecTrackerOp::Decl(n) => (n, None::<Seq<UnknownType>>),
            };
            assert(tr2 == tr.push(e));
            assert forall|i: int, j: int| 0 <= i < j < tr2.len() implies (#[trigger] tr2[i].0) != (
            #[trigger] tr2[j].0) by {
                if j == tr.len() as int {
                    lemma_tr_find_at(tr, tr2[i].0, i);
                }
            }
            assert forall|name: Seq<char>| #[trigger] tr_find(tr2, name) == tr_find(tr2, name) implies match tr_find(
                tr2,
                name,
            ) {
                None => !ops_mentions(all, name),
                Some(i) => ops_mentions(all, name) && tr2[i].1 == (if ops_has_decl(all, name) {
                    None
                } else {
                    Some(ops_ref_sites(all, name))
                }),
            } by {
                lemma_tr_find_props(tr, name);
                lemma_tr_find_push(tr, e, name);
                lemma_ops_push_facts(ops, op, name);
                if name == opname {
                    assert(!ops_mentions(ops, name));
                    lemma_no_ref_no_sites(ops, name);
                    match op {
                        SpecTrackerOp::Ref(n, s) => {
                            assert(ops_ref_sites(all, name) =~= seq![s]);
                        },
                        SpecTrackerOp::Decl(n) => {},
                    }
                } else {
                    assert(ops_ref_sites(all, name) =~= ops_ref_sites(ops, name));
                }
            }
        },
        Some(fi) => {
            match tr[fi].1 {
                Some(sites) => {
                    match op {
                        SpecTrackerOp::Ref(n, s) => {
                            let v = (n, Some(sites.push(s)));
                            assert(tr2 == tr.update(fi, v));
                            assert forall|i: int, j: int| 0 <= i < j < tr2.len() implies (
                            #[trigger] tr2[i].0) != (#[trigger] tr2[j].0) by {
                                assert(tr2[i].0 == tr[i].0);
                                assert(tr2[j].0 == tr[j].0);
                            }
                            assert forall|name: Seq<char>| #[trigger] tr_find(tr2, name) == tr_find(tr2, name) implies match tr_find(
                                tr2,
                                name,
                            ) {
                                None => !ops_mentions(all, name),
                                Some(i) => ops_mentions(all, name) && tr2[i].1 == (if ops_has_decl(all, name) {
                                    None
                                } else {
                                    Some(ops_ref_sites(all, name))
                                }),
                            } by {
                                lemma_tr_find_props(tr, name);
                                lemma_tr_find_update(tr, fi, v, name);
                                lemma_ops_push_facts(ops, op, name);
                                if name == opname {
                                    assert(!ops_has_decl(ops, name));
                                    assert(ops_ref_sites(all, name) =~= ops_ref_sites(ops, name).push(s));
                                } else {
                                    match tr_find(tr, name) {
                                        Some(fj) => {
                                            assert(tr2[fj].1 == tr[fj].1);
                                        },
                                        None => {},
                                    }
                                    assert(ops_ref_sites(all, name) =~= ops_ref_sites(ops, name));
                                }
                            }
                        },
                        SpecTrackerOp::Decl(n) => {
                            let v = (n, None::<Seq<UnknownType>>);
                            assert(tr2 == tr.update(fi, v));
                            assert forall|i: int, j: int| 0 <= i < j < tr2.len() implies (
                            #[trigger] tr2[i].0) != (#[trigger] tr2[j].0) by {
                                assert(tr2[i].0 == tr[i].0);
                                assert(tr2[j].0 == tr[j].0);
                            }
                            assert forall|name: Seq<char>| #[trigger] tr_find(tr2, name) == tr_find(tr2, name) implies match tr_find(
                                tr2,
                                name,
                            ) {
                                None => !ops_mentions(all, name),
                                Some(i) => ops_mentions(all, name) && tr2[i].1 == (if ops_has_decl(all, name) {
                                    None
                                } else {
                                    Some(ops_ref_sites(all, name))
                                }),
                            } by {
                                lemma_tr_find_props(tr, name);
                                lemma_tr_find_update(tr, fi, v, name);
                                lemma_ops_push_facts(ops, op, name);
                                if name != opname {
                                    match tr_find(tr, name) {
                                        Some(fj) => {
                                            assert(tr2[fj].1 == tr[fj].1);
                                        },
                                        None => {},
                                    }
                                    assert(ops_ref_sites(all, name) =~= ops_ref_sites(ops, name));
                                }
                            }
                        },
                    }
                },
                None => {
                    // A declared name: a new reference is dropped, a new
                    // declaration leaves the entry `None`.
                    match op {
                        SpecTrackerOp::Ref(n, s) => {
                            assert(tr2 == tr);
                            assert forall|name: Seq<char>| #[trigger] tr_find(tr2, name) == tr_find(tr2, name) implies match tr_find(
                                tr2,
                                name,
                            ) {
                                None => !ops_mentions(all, name),
                                Some(i) => ops_mentions(all, name) && tr2[i].1 == (if ops_has_decl(all, name) {
                                    None
                                } else {
                                    Some(ops_ref_sites(all, name))
                                }),
                            } by {
                                lemma_tr_find_props(tr, name);
                                lemma_ops_push_facts(ops, op, name);
                                if name == opname {
                                    assert(ops_has_decl(ops, name));
                                } else {
                                    assert(ops_ref_sites(all, name) =~= ops_ref_sites(ops, name));
                                }
                            }
                        },
                        SpecTrackerOp::Decl(n) => {
                            let v = (n, None::<Seq<UnknownType>>);
                            assert(tr2 == tr.update(fi, v));
                            assert forall|i: int, j: int| 0 <= i < j < tr2.len() implies (
                            #[trigger] tr2[i].0) != (#[trigger] tr2[j].0) by {
                                assert(tr2[i].0 == tr[i].0);
                                assert(tr2[j].0 == tr[j].0);
                            }
                            assert(tr.update(fi, v) =~= tr);
                            assert forall|name: Seq<char>| #[trigger] tr_find(tr2, name) == tr_find(tr2, name) implies match tr_find(
                                tr2,
                                name,
                            ) {
                                None => !ops_mentions(all, name),
                                Some(i) => ops_mentions(all, name) && tr2[i].1 == (if ops_has_decl(all, name) {
                                    None
                                } else {
                                    Some(ops_ref_sites(all, name))
                                }),
                            } by {
                                lemma_tr_find_props(tr, name);
                                lemma_ops_push_facts(ops, op, name);
                                if name != opname {
                                    assert(ops_ref_sites(all, name) =~= ops_ref_sites(ops, name));
                                }
                            }
                        },
                    }
                },
            }
        },
    }
}

/// A run that starts from the empty table ends in a state the operation
/// sequence fully determines.
pub proof fn lemma_tracker_matches(ops: Seq<SpecTrackerOp>)
    ensures
        tracker_matches_ops(tr_apply_all(Seq::empty(), ops), ops),
    decreases ops.len(),
{
    if ops.len() == 0 {
        let tr = tr_apply_all(Seq::empty(), ops);
        assert forall|name: Seq<char>| #[trigger] tr_find(tr, name) is None by {
            lemma_tr_find_none(tr, name);
        }
    } else {
        lemma_tracker_matches(ops.drop_last());
        lemma_tracker_matches_step(tr_apply_all(Seq::empty(), ops.drop_last()), ops.drop_last(), ops.last());
        assert(ops.drop_last().push(ops.last()) =~= ops);
    }
}

/// After a run, each name's entry is exactly what the run's operations
/// dictate: absent when never mentioned, declared when some operation
/// declared it, and otherwise the exact ordered sites that referenced it.
pub proof fn lemma_tracker_reconciliation(ops: Seq<SpecTrackerOp>, name: Seq<char>)
    ensures
        ({
            let tr = tr_apply_all(Seq::empty(), ops);
            match tr_find(tr, name) {
                None => !ops_mentions(ops, name),
                Some(i) => {
                    &&& 0 <= i < tr.len()
                    &&& tr[i].0 == name
                    &&& ops_mentions(ops, name)
                    &&& tr[i].1 == (if ops_has_decl(ops, name) {
                        None
                    } else {
                        Some(ops_ref_sites(ops, name))
                    })
                },
            }
        }),
{
    lemma_tracker_matches(ops);
    lemma_tr_find_props(tr_apply_all(Seq::empty(), ops), name);
}

proof fn lemma_dangling_all_none(tr: SpecTrackerState)
    requires
        forall|i: int| 0 <= i < tr.len() ==> (#[trigger] tr[i].1) is None,
    ensures
        tr_dangling(tr) == Seq::<UnknownType>::empty(),
    decreases tr.len(),
{
    if tr.len() > 0 {
        assert(tr.last() == tr[tr.len() - 1]);
        lemma_dangling_all_none(tr.drop_last());
        assert(tr_dangling(tr) =~= Seq::<UnknownType>::empty());
    }
}

/// A run that eventually declares every name it references ends with no
/// dangling reference, whatever the order of references and declarations.
pub proof fn lemma_all_declared_no_dangling(ops: Seq<SpecTrackerOp>)
    requires
        forall|name: Seq<char>| #[trigger] ops_has_ref(ops, name) ==> ops_has_decl(ops, name),
    ensures
        tr_dangling(tr_apply_all(Seq::empty(), ops)) == Seq::<UnknownType>::empty(),
{
    let tr = tr_apply_all(Seq::empty(), ops);
    lemma_tracker_matches(ops);
    assert forall|i: int| 0 <= i < tr.len() implies (#[trigger] tr[i].1) is None by {
        lemma_tr_find_at(tr, tr[i].0, i);
        lemma_tracker_reconciliation(ops, tr[i].0);
    }
    lemma_dangling_all_none(tr);
}

proof fn lemma_dangling_contains(tr: SpecTrackerState, i: int, k: int)
    requires
        0 <= i < tr.len(),
        tr[i].1 is Some,
        0 <= k < tr[i].1->Some_0.len(),
    ensures
        tr_dangling(tr).contains(tr[i].1->Some_0[k]),
    decreases tr.len(),
{
    let sites = tr[i].1->Some_0;
    if i == tr.len() - 1 {
        assert(tr.last() == tr[i]);
        assert(tr_dangling(tr)[tr_dangling(tr.drop_last()).len() + k] == sites[k]);
    } else {
        lemma_dangling_contains(tr.drop_last(), i, k);
        let j = choose|j: int| 0 <= j < tr_dangling(tr.drop_last()).len() && tr_dangling(tr.drop_last())[j] == sites[k];
        assert(tr_dangling(tr)[j] == sites[k]);
    }
}

/// A run that references a name it never declares ends with that name's
/// entry holding exactly the referencing sites, every one of which shows
/// up among the dangling references.
pub proof fn lemma_undeclared_reference_dangles(ops: Seq<SpecTrackerOp>, name: Seq<char>)
    requires
        ops_has_ref(ops, name),
        !ops_has_decl(ops, name),
    ensures
        ({
            let tr = tr_apply_all(Seq::empty(), ops);
            let sites = ops_ref_sites(ops, name);
            exists|i: int|
                0 <= i < tr.len() && (#[trigger] tr[i].0) == name && tr[i].1 == Some(sites) && forall|k: int|
                    0 <= k < sites.len() ==> tr_dangling(tr).contains(sites[k])
        }),
{
    let tr = tr_apply_all(Seq::empty(), ops);
    let sites = ops_ref_sites(ops, name);
    lemma_tracker_reconciliation(ops, name);
    match tr_find(tr, name) {
        None => {
            assert(false);
        },
        Some(i) => {
            assert(tr[i].0 == name);
            assert(tr[i].1 == Some(sites));
            assert forall|k: int| 0 <= k < sites.len() implies tr_dangling(tr).contains(sites[k]) by {
                lemma_dangling_contains(tr, i, k);
            }
        },
    }
}

} // verus!
