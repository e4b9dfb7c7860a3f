use vstd::prelude::*;
use crate::dispatch::{dispatch_in, dispatch_spec, find_impl, find_method, ImplRegistry, MethodRef};
use crate::order::{lemma_text_lt_asymmetric, lemma_text_lt_total, lemma_text_lt_transitive, text_less, text_lt};
use crate::resolver::{resolve_spec, Kind, ResolveError, SymbolTable, UseKind, MAX_IMPORT_DEPTH};

verus! {

/// What a reference binds to: a declaration, by its index in the table, or
/// a method of a registered implementation.
#[derive(Clone, Copy, PartialEq, Eq, Structural, Debug)]
pub enum Target {
    Decl(usize),
    Method(MethodRef),
}

/// The outcome for one reference: the declaration it occurs in, its module,
/// its position among that declaration's references, and the binding found
/// or the error met.
pub struct Resolution {
    pub module: usize,
    pub decl: usize,
    pub pos: usize,
    pub outcome: Result<Target, ResolveError>,
}

/// Every reference of a program with its outcome. `order` lists the
/// declarations by module path, then name; `entries` holds their references
/// in that order, each declaration's in order of occurrence. The entries
/// whose outcome is `Ok` are the edges; the others are the diagnostics.
pub struct ReferenceGraph {
    pub order: Vec<usize>,
    pub entries: Vec<Resolution>,
}

/// A resolution of a declaration index as a target.
pub open spec fn as_target(r: Result<usize, ResolveError>) -> Result<Target, ResolveError> {
    match r {
        Ok(i) => Ok(Target::Decl(i)),
        Err(e) => Err(e),
    }
}

/// A dispatch result as a target.
pub open spec fn method_target(r: Result<MethodRef, ResolveError>) -> Result<Target, ResolveError> {
    match r {
        Ok(m) => Ok(Target::Method(m)),
        Err(e) => Err(e),
    }
}

/// The method `method` of the inherent implementation of the type `ty`.
pub open spec fn inherent_method(reg: ImplRegistry, ty: Seq<char>, method: Seq<char>) -> Result<MethodRef, ResolveError> {
    match find_impl(reg, None, ty) {
        None => Err(ResolveError::MethodNotImplemented),
        Some(k) => match find_method(reg.records@[k].methods@, method) {
            None => Err(ResolveError::MethodNotImplemented),
            Some(j) => Ok(MethodRef { record: k as usize, method: j as usize }),
        },
    }
}

/// The outcome for reference `p` of declaration `d`.
pub open spec fn ref_outcome(t: SymbolTable, reg: ImplRegistry, d: int, p: int) -> Result<Target, ResolveError> {
    let e = t.decls@[d];
    let r = e.decl.refs@[p];
    match r.use_kind {
        UseKind::Symbol(k) => as_target(resolve_spec(t, e.module as int, r.name@, k, MAX_IMPORT_DEPTH as nat)),
        UseKind::Associated(m) => match resolve_spec(t, e.module as int, r.name@, Kind::Struct, MAX_IMPORT_DEPTH as nat) {
            Err(x) => Err(x),
            Ok(i) => method_target(inherent_method(reg, t.decls@[i as int].decl.name@, m@)),
        },
        UseKind::Method(m) => method_target(dispatch_spec(reg, e.decl.bindings@, r.name@, m@)),
    }
}

/// The resolution entry for reference `p` of declaration `d`.
pub open spec fn entry_of(t: SymbolTable, reg: ImplRegistry, d: int, p: int) -> Resolution {
    Resolution { module: t.decls@[d].module, decl: d as usize, pos: p as usize, outcome: ref_outcome(t, reg, d, p) }
}

/// The entries for the first `n` references of declaration `d`.
pub open spec fn decl_entries(t: SymbolTable, reg: ImplRegistry, d: int, n: int) -> Seq<Resolution> {
    Seq::new(n as nat, |p: int| entry_of(t, reg, d, p))
}

/// The entries for all references of the declarations `ord[0]`, ...,
/// `ord[n - 1]`, in that order.
pub open spec fn entries_in(t: SymbolTable, reg: ImplRegistry, ord: Seq<usize>, n: int) -> Seq<Resolution>
    decreases n,
{
    if n <= 0 {
        Seq::empty()
    } else {
        let d = ord[n - 1] as int;
        entries_in(t, reg, ord, n - 1) + decl_entries(t, reg, d, t.decls@[d].decl.refs@.len() as int)
    }
}

/// The number of entries of `s` whose outcome is an error.
pub open spec fn error_count(s: Seq<Resolution>) -> nat
    decreases s.len(),
{
    if s.len() == 0 {
        0
    } else {
        error_count(s.drop_last()) + if s.last().outcome is Err { 1nat } else { 0nat }
    }
}

/// Whether declaration `i` comes before declaration `j` in a graph: by the
/// path of its module, then by its name, then by the order of registration.
pub open spec fn decl_lt(t: SymbolTable, i: int, j: int) -> bool {
    let pi = t.modules@[t.decls@[i].module as int]@;
    let pj = t.modules@[t.decls@[j].module as int]@;
    let ni = t.decls@[i].decl.name@;
    let nj = t.decls@[j].decl.name@;
    text_lt(pi, pj) || (pi == pj && (text_lt(ni, nj) || (ni == nj && i < j)))
}

/// Whether `ord` lists every declaration of `t` once, in the order of
/// `decl_lt`.
pub open spec fn is_decl_order(t: SymbolTable, ord: Seq<usize>) -> bool {
    &&& ord.len() == t.decls@.len()
    &&& forall|k: int| 0 <= k < ord.len() ==> ord[k] < t.decls@.len()
    &&& forall|d: usize| d < t.decls@.len() ==> #[trigger] ord.contains(d)
    &&& forall|a: int, b: int| 0 <= a < b < ord.len() ==> decl_lt(t, #[trigger] ord[a] as int, #[trigger] ord[b] as int)
}

/// Of two declarations, at most one comes first.
pub proof fn lemma_decl_lt_asymmetric(t: SymbolTable, i: int, j: int)
    ensures
        !(decl_lt(t, i, j) && decl_lt(t, j, i)),
{
    lemma_text_lt_asymmetric(t.modules@[t.decls@[i].module as int]@, t.modules@[t.decls@[j].module as int]@);
    lemma_text_lt_asymmetric(t.decls@[i].decl.name@, t.decls@[j].decl.name@);
}

/// Of two different declarations, one comes first.
pub proof fn lemma_decl_lt_total(t: SymbolTable, i: int, j: int)
    requires
        i != j,
    ensures
        decl_lt(t, i, j) || decl_lt(t, j, i),
{
    let pi = t.modules@[t.decls@[i].module as int]@;
    let pj = t.modules@[t.decls@[j].module as int]@;
    let ni = t.decls@[i].decl.name@;
    let nj = t.decls@[j].decl.name@;
    if pi != pj {
        lemma_text_lt_total(pi, pj);
    } else if ni != nj {
        lemma_text_lt_total(ni, nj);
    }
}

/// The order on declarations is transitive.
pub proof fn lemma_decl_lt_transitive(t: SymbolTable, i: int, j: int, k: int)
    requires
        decl_lt(t, i, j),
        decl_lt(t, j, k),
    ensures
        decl_lt(t, i, k),
{
    let pi = t.modules@[t.decls@[i].module as int]@;
    let pj = t.modules@[t.decls@[j].module as int]@;
    let pk = t.modules@[t.decls@[k].module as int]@;
    let ni = t.decls@[i].decl.name@;
    let nj = t.decls@[j].decl.name@;
    let nk = t.decls@[k].decl.name@;
    if text_lt(pi, pj) && text_lt(pj, pk) {
        lemma_text_lt_transitive(pi, pj, pk);
    }
    if pi == pj && pj == pk && text_lt(ni, nj) && text_lt(nj, nk) {
        lemma_text_lt_transitive(ni, nj, nk);
    }
}

/// Whether `ord` is strictly increasing under `decl_lt`.
pub open spec fn decl_sorted(t: SymbolTable, ord: Seq<usize>) -> bool {
    forall|a: int, b: int| 0 <= a < b < ord.len() ==> decl_lt(t, #[trigger] ord[a] as int, #[trigger] ord[b] as int)
}

/// Two sequences sorted by `decl_lt` that hold the same declarations are
/// equal.
pub proof fn lemma_sorted_unique(t: SymbolTable, o1: Seq<usize>, o2: Seq<usize>)
    requires
        decl_sorted(t, o1),
        decl_sorted(t, o2),
        forall|x: usize| #[trigger] o1.contains(x) <==> o2.contains(x),
    ensures
        o1 == o2,
    decreases o1.len(),
{
    if o1.len() == 0 {
        if o2.len() > 0 {
            assert(o2.contains(o2[0]));
            assert(o1.contains(o2[0]));
        }
        assert(o1 =~= o2);
    } else {
        assert(o1.contains(o1[0]));
        let j = choose|j: int| 0 <= j < o2.len() && o2[j] == o1[0];
        assert(o2.contains(o2[0]));
        assert(o1.contains(o2[0]));
        let k = choose|k: int| 0 <= k < o1.len() && o1[k] == o2[0];
        if j > 0 && k > 0 {
            assert(decl_lt(t, o2[0] as int, o2[j] as int));
            assert(decl_lt(t, o1[0] as int, o1[k] as int));
            lemma_decl_lt_asymmetric(t, o1[0] as int, o2[0] as int);
        }
        assert(o1[0] == o2[0]);
        let r1 = o1.drop_first();
        let r2 = o2.drop_first();
        assert forall|x: usize| #[trigger] r1.contains(x) <==> r2.contains(x) by {
            if r1.contains(x) {
                let i = choose|i: int| 0 <= i < r1.len() && r1[i] == x;
                assert(o1[i + 1] == x);
                assert(o1.contains(x));
                let i2 = choose|i2: int| 0 <= i2 < o2.len() && o2[i2] == x;
                if i2 == 0 {
                    assert(decl_lt(t, o1[0] as int, o1[i + 1] as int));
                    lemma_decl_lt_asymmetric(t, o1[0] as int, x as int);
                }
                assert(r2[i2 - 1] == x);
            }
            if r2.contains(x) {
                let i = choose|i: int| 0 <= i < r2.len() && r2[i] == x;
                assert(o2[i + 1] == x);
                assert(o2.contains(x));
                assert(o1.contains(x));
                let i1 = choose|i1: int| 0 <= i1 < o1.len() && o1[i1] == x;
                if i1 == 0 {
                    assert(decl_lt(t, o2[0] as int, o2[i + 1] as int));
                    lemma_decl_lt_asymmetric(t, o2[0] as int, x as int);
                }
                assert(r1[i1 - 1] == x);
            }
        }
        assert forall|a: int, b: int| 0 <= a < b < r1.len() implies decl_lt(t, #[trigger] r1[a] as int, #[trigger] r1[b] as int) by {
            assert(r1[a] == o1[a + 1] && r1[b] == o1[b + 1]);
        }
        assert forall|a: int, b: int| 0 <= a < b < r2.len() implies decl_lt(t, #[trigger] r2[a] as int, #[trigger] r2[b] as int) by {
            assert(r2[a] == o2[a + 1] && r2[b] == o2[b + 1]);
        }
        lemma_sorted_unique(t, r1, r2);
        assert(o1 =~= seq![o1[0]] + r1);
        assert(o2 =~= seq![o2[0]] + r2);
    }
}

/// There is one declaration order: two sequences that both list every
/// declaration once, in the order of `decl_lt`, are equal.
pub proof fn lemma_decl_order_unique(t: SymbolTable, o1: Seq<usize>, o2: Seq<usize>)
    requires
        is_decl_order(t, o1),
        is_decl_order(t, o2),
    ensures
        o1 == o2,
{
    assert forall|x: usize| #[trigger] o1.contains(x) <==> o2.contains(x) by {
        if o1.contains(x) {
            let i = choose|i: int| 0 <= i < o1.len() && o1[i] == x;
            assert(x < t.decls@.len());
        }
        if o2.contains(x) {
            let i = choose|i: int| 0 <= i < o2.len() && o2[i] == x;
            assert(x < t.decls@.len());
        }
    }
    lemma_sorted_unique(t, o1, o2);
}

/// Whether declaration `i` comes before declaration `j`.
fn decl_less(t: &SymbolTable, i: usize, j: usize) -> (r: bool)
    requires
        t.wf(),
        i < t.decls@.len(),
        j < t.decls@.len(),
    ensures
        r == decl_lt(*t, i as int, j as int),
{
    let pi = &t.modules[t.decls[i].module];
    let pj = &t.modules[t.decls[j].module];
    let ni = &t.decls[i].decl.name;
    let nj = &t.decls[j].decl.name;
    if text_less(pi, pj) {
        true
    } else if *pi == *pj {
        if text_less(ni, nj) {
            true
        } else {
            *ni == *nj && i < j
        }
    } else {
        false
    }
}

/// The declarations of `t` by module path, then name, then registration.
pub fn decl_order(t: &SymbolTable) -> (ord: Vec<usize>)
    requires
        t.wf(),
    ensures
        is_decl_order(*t, ord@),
{
    let n = t.decls.len();
    let mut ord: Vec<usize> = Vec::new();
    let mut k: usize = 0;
    while k < n
        invariant
            t.wf(),
            n == t.decls@.len(),
            k <= n,
            ord@.len() == k,
            forall|q: int| 0 <= q < k ==> ord@[q] < k,
            forall|d: usize| d < k ==> #[trigger] ord@.contains(d),
            forall|a: int, b: int| 0 <= a < b < k ==> decl_lt(*t, ord@[a] as int, ord@[b] as int),
        decreases n - k,
    {
        let mut pos: usize = 0;
        while pos < ord.len() && decl_less(t, ord[pos], k)
            invariant
                t.wf(),
                n == t.decls@.len(),
                k < n,
                ord@.len() == k,
                forall|q: int| 0 <= q < k ==> ord@[q] < k,
                pos <= ord@.len(),
                forall|q: int| 0 <= q < pos ==> decl_lt(*t, ord@[q] as int, k as int),
            decreases ord@.len() - pos,
        {
            pos = pos + 1;
        }
        let ghost old_ord = ord@;
        ord.insert(pos, k);
        proof {
            old_ord.insert_ensures(pos as int, k);
            if pos < old_ord.len() {
                lemma_decl_lt_total(*t, old_ord[pos as int] as int, k as int);
            }
            assert forall|a: int, b: int| 0 <= a < b < k + 1 implies decl_lt(*t, ord@[a] as int, ord@[b] as int) by {
                if b < pos {
                } else if b == pos {
                } else if a < pos {
                    assert(ord@[b] == old_ord[b - 1]);
                } else if a == pos {
                    assert(ord@[b] == old_ord[b - 1]);
                    if b - 1 > pos {
                        lemma_decl_lt_transitive(*t, k as int, old_ord[pos as int] as int, old_ord[b - 1] as int);
                    }
                } else {
                    assert(ord@[a] == old_ord[a - 1]);
                    assert(ord@[b] == old_ord[b - 1]);
                }
            }
            assert forall|d: usize| d < k + 1 implies #[trigger] ord@.contains(d) by {
                if d == k {
                    assert(ord@[pos as int] == d);
                } else {
                    assert(old_ord.contains(d));
                    let q = choose|q: int| 0 <= q < old_ord.len() && old_ord[q] == d;
                    if q < pos {
                        assert(ord@[q] == d);
                    } else {
                        assert(ord@[q + 1] == d);
                    }
                }
            }
            assert forall|q: int| 0 <= q < k + 1 implies ord@[q] < k + 1 by {
                if q > pos {
                    assert(ord@[q] == old_ord[q - 1]);
                }
            }
        }
        k = k + 1;
    }
    ord
}

/// Resolves reference `p` of declaration `d`.
pub fn resolve_reference(t: &SymbolTable, reg: &ImplRegistry, d: usize, p: usize) -> (r: Result<Target, ResolveError>)
    requires
        d < t.decls@.len(),
        p < t.decls@[d as int].decl.refs@.len(),
    ensures
        r == ref_outcome(*t, *reg, d as int, p as int),
{
    let e = &t.decls[d];
    let r = &e.decl.refs[p];
    match &r.use_kind {
        UseKind::Symbol(k) => match t.resolve_in(e.module, &r.name, *k) {
            Ok(i) => Ok(Target::Decl(i)),
            Err(x) => Err(x),
        },
        UseKind::Associated(m) => match t.resolve_in(e.module, &r.name, Kind::Struct) {
            Err(x) => Err(x),
            Ok(i) => {
                match reg.find_index(&None, &t.decls[i].decl.name) {
                    None => Err(ResolveError::MethodNotImplemented),
                    Some(k) => match reg.method_index(k, m) {
                        None => Err(ResolveError::MethodNotImplemented),
                        Some(j) => Ok(Target::Method(MethodRef { record: k, method: j })),
                    },
                }
            },
        },
        UseKind::Method(m) => match dispatch_in(reg, &e.decl.bindings, &r.name, m) {
            Ok(mr) => Ok(Target::Method(mr)),
            Err(x) => Err(x),
        },
    }
}

/// Resolves every reference of every declaration, collecting errors rather
/// than stopping at the first.
pub fn build(t: &SymbolTable, reg: &ImplRegistry) -> (g: ReferenceGraph)
    requires
        t.wf(),
    ensures
        is_decl_order(*t, g.order@),
        g.entries@ == entries_in(*t, *reg, g.order@, g.order@.len() as int),
{
    let order = decl_order(t);
    let mut entries: Vec<Resolution> = Vec::new();
    let mut k: usize = 0;
    while k < order.len()
        invariant
            is_decl_order(*t, order@),
            k <= order@.len(),
            entries@ == entries_in(*t, *reg, order@, k as int),
        decreases order@.len() - k,
    {
        let d = order[k];
        let n = t.decls[d].decl.refs.len();
        let mut p: usize = 0;
        while p < n
            invariant
                is_decl_order(*t, order@),
                k < order@.len(),
                d == order@[k as int],
                d < t.decls@.len(),
                n == t.decls@[d as int].decl.refs@.len(),
                p <= n,
                entries@ == entries_in(*t, *reg, order@, k as int) + decl_entries(*t, *reg, d as int, p as int),
            decreases n - p,
        {
            let outcome = resolve_reference(t, reg, d, p);
            entries.push(Resolution { module: t.decls[d].module, decl: d, pos: p, outcome });
            proof {
                assert(decl_entries(*t, *reg, d as int, p + 1) =~= decl_entries(*t, *reg, d as int, p as int).push(
                    entry_of(*t, *reg, d as int, p as int),
                ));
                assert(entries@ =~= entries_in(*t, *reg, order@, k as int) + decl_entries(*t, *reg, d as int, p + 1));
            }
            p = p + 1;
        }
        k = k + 1;
    }
    ReferenceGraph { order, entries }
}

impl ReferenceGraph {
    /// The number of references that failed to resolve.
    pub fn diagnostic_count(&self) -> (r: usize)
        ensures
            r == error_count(self.entries@),
    {
        let mut count: usize = 0;
        let mut i: usize = 0;
        while i < self.entries.len()
            invariant
                i <= self.entries@.len(),
                count == error_count(self.entries@.subrange(0, i as int)),
                count <= i,
            decreases self.entries@.len() - i,
        {
            proof {
                assert(self.entries@.subrange(0, i + 1).drop_last() =~= self.entries@.subrange(0, i as int));
            }
            if self.entries[i].outcome.is_err() {
                count = count + 1;
            }
            i = i + 1;
        }
        proof {
            assert(self.entries@.subrange(0, i as int) =~= self.entries@);
        }
        count
    }

    /// Whether declaration `decl` has a reference that binds to `target`.
    pub fn has_edge(&self, decl: usize, target: Target) -> (r: bool)
        ensures
            r == exists|i: int| 0 <= i < self.entries@.len() && self.entries@[i].decl == decl
                && self.entries@[i].outcome == Ok::<Target, ResolveError>(target),
    {
        let mut i: usize = 0;
        while i < self.entries.len()
            invariant
                i <= self.entries@.len(),
                forall|j: int| 0 <= j < i ==> !(self.entries@[j].decl == decl
                    && self.entries@[j].outcome == Ok::<Target, ResolveError>(target)),
            decreases self.entries@.len() - i,
        {
            let e = &self.entries[i];
            if e.decl == decl {
                match e.outcome {
                    Ok(x) => {
                        if x == target {
                            return true;
                        }
                    },
                    Err(_) => {},
                }
            }
            i = i + 1;
        }
        false
    }
}

} // verus!
