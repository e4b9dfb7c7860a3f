use vstd::prelude::*;
use crate::resolver::{BindingSite, ResolveError};
use crate::search::{first_where, lemma_first_where, lemma_first_where_at};

verus! {

/// The methods that a concrete type provides for a trait, or on its own
/// (`trait_name` is `None`) for an inherent implementation.
pub struct ImplRecord {
    pub trait_name: Option<String>,
    pub concrete_type: String,
    pub module: String,
    pub methods: Vec<String>,
}

/// A method of a registered implementation: the record's index, then the
/// method's index in its table.
#[derive(Clone, Copy, PartialEq, Eq, Structural, Debug)]
pub struct MethodRef {
    pub record: usize,
    pub method: usize,
}

/// All implementations, at most one per trait and concrete type.
pub struct ImplRegistry {
    pub records: Vec<ImplRecord>,
}

/// The trait name of an implementation, as text.
pub open spec fn trait_view(t: Option<String>) -> Option<Seq<char>> {
    match t {
        Some(s) => Some(s@),
        None => None,
    }
}

/// Whether record `i` implements `tr` for `ty`.
pub open spec fn implements(reg: ImplRegistry, i: int, tr: Option<Seq<char>>, ty: Seq<char>) -> bool {
    trait_view(reg.records@[i].trait_name) == tr && reg.records@[i].concrete_type@ == ty
}

/// The record that implements `tr` for `ty`.
pub open spec fn find_impl(reg: ImplRegistry, tr: Option<Seq<char>>, ty: Seq<char>) -> Option<int> {
    first_where(0, reg.records@.len() as int, |i: int| implements(reg, i, tr, ty))
}

/// Whether entry `j` of a method table is `method`.
pub open spec fn names_method(methods: Seq<String>, j: int, method: Seq<char>) -> bool {
    methods[j]@ == method
}

/// The position of `method` in a method table.
pub open spec fn find_method(methods: Seq<String>, method: Seq<char>) -> Option<int> {
    first_where(0, methods.len() as int, |j: int| names_method(methods, j, method))
}

/// The concrete type and the interface that `var` was last bound to.
pub open spec fn binding_of(sites: Seq<BindingSite>, var: Seq<char>) -> Option<(Seq<char>, Seq<char>)>
    decreases sites.len(),
{
    if sites.len() == 0 {
        None
    } else if sites.last().variable@ == var {
        Some((sites.last().concrete_type@, sites.last().interface@))
    } else {
        binding_of(sites.drop_last(), var)
    }
}

/// The method `method` of the implementation of `iface` for `ty`.
pub open spec fn select_method(reg: ImplRegistry, iface: Seq<char>, ty: Seq<char>, method: Seq<char>) -> Result<MethodRef, ResolveError> {
    match find_impl(reg, Some(iface), ty) {
        None => Err(ResolveError::NotFound),
        Some(k) => match find_method(reg.records@[k].methods@, method) {
            None => Err(ResolveError::MethodNotImplemented),
            Some(j) => Ok(MethodRef { record: k as usize, method: j as usize }),
        },
    }
}

/// A call of `method` on the variable `var`: the implementation is chosen by
/// the concrete type recorded where `var` was bound.
pub open spec fn dispatch_spec(reg: ImplRegistry, sites: Seq<BindingSite>, var: Seq<char>, method: Seq<char>) -> Result<MethodRef, ResolveError> {
    match binding_of(sites, var) {
        None => Err(ResolveError::UnresolvedReference),
        Some((ty, iface)) => select_method(reg, iface, ty, method),
    }
}

/// What `find_impl` returns, in terms of the records.
pub proof fn lemma_find_impl_facts(reg: ImplRegistry, tr: Option<Seq<char>>, ty: Seq<char>)
    ensures
        match find_impl(reg, tr, ty) {
            Some(i) => 0 <= i < reg.records@.len() && implements(reg, i, tr, ty)
                && forall|j: int| 0 <= j < i ==> !implements(reg, j, tr, ty),
            None => forall|j: int| 0 <= j < reg.records@.len() ==> !implements(reg, j, tr, ty),
        },
{
    let p = |i: int| implements(reg, i, tr, ty);
    lemma_first_where(0, reg.records@.len() as int, p);
    match find_impl(reg, tr, ty) {
        Some(i) => {
            assert forall|j: int| 0 <= j < i implies !implements(reg, j, tr, ty) by {
                assert(!p(j));
            }
        },
        None => {
            assert forall|j: int| 0 <= j < reg.records@.len() implies !implements(reg, j, tr, ty) by {
                assert(!p(j));
            }
        },
    }
}

/// What `find_method` returns, in terms of the table.
pub proof fn lemma_find_method_facts(methods: Seq<String>, method: Seq<char>)
    ensures
        match find_method(methods, method) {
            Some(j) => 0 <= j < methods.len() && methods[j]@ == method,
            None => forall|j: int| 0 <= j < methods.len() ==> methods[j]@ != method,
        },
{
    let p = |j: int| names_method(methods, j, method);
    lemma_first_where(0, methods.len() as int, p);
    if find_method(methods, method) is None {
        assert forall|j: int| 0 <= j < methods.len() implies methods[j]@ != method by {
            assert(!p(j));
        }
    }
}

/// Whether two optional trait names are the same text.
fn same_trait(a: &Option<String>, b: &Option<String>) -> (r: bool)
    ensures
        r == (trait_view(*a) == trait_view(*b)),
{
    match (a, b) {
        (Some(x), Some(y)) => *x == *y,
        (None, None) => true,
        _ => false,
    }
}

impl ImplRegistry {
    /// No two records implement one trait for one type.
    pub open spec fn wf(&self) -> bool {
        forall|i: int, j: int|
            0 <= i < j < self.records@.len() ==> !implements(*self, j, trait_view(self.records@[i].trait_name),
                self.records@[i].concrete_type@)
    }

    /// An empty registry.
    pub fn new() -> (r: ImplRegistry)
        ensures
            r.wf(),
            r.records@.len() == 0,
    {
        ImplRegistry { records: Vec::new() }
    }

    /// The index of the record that implements `trait_name` for `ty`.
    pub fn find_index(&self, trait_name: &Option<String>, ty: &String) -> (r: Option<usize>)
        ensures
            match r {
                Some(i) => find_impl(*self, trait_view(*trait_name), ty@) == Some(i as int) && i < self.records@.len(),
                None => find_impl(*self, trait_view(*trait_name), ty@) is None,
            },
    {
        let ghost p = |i: int| implements(*self, i, trait_view(*trait_name), ty@);
        let mut i: usize = 0;
        while i < self.records.len()
            invariant
                i <= self.records@.len(),
                p == (|i: int| implements(*self, i, trait_view(*trait_name), ty@)),
                find_impl(*self, trait_view(*trait_name), ty@) == first_where(i as int, self.records@.len() as int, p),
            decreases self.records@.len() - i,
        {
            if same_trait(&self.records[i].trait_name, trait_name) && self.records[i].concrete_type == *ty {
                return Some(i);
            }
            i = i + 1;
        }
        None
    }

    /// Adds `rec`, unless an implementation of its trait for its type is
    /// already registered.
    pub fn register(&mut self, rec: ImplRecord) -> (r: Result<(), ResolveError>)
        requires
            old(self).wf(),
        ensures
            final(self).wf(),
            find_impl(*old(self), trait_view(rec.trait_name), rec.concrete_type@) is Some ==> r
                == Err::<(), ResolveError>(ResolveError::DuplicateImplementation) && *final(self) == *old(self),
            find_impl(*old(self), trait_view(rec.trait_name), rec.concrete_type@) is None ==> r == Ok::<
                (),
                ResolveError,
            >(()) && final(self).records@ == old(self).records@.push(rec),
    {
        if self.find_index(&rec.trait_name, &rec.concrete_type).is_some() {
            return Err(ResolveError::DuplicateImplementation);
        }
        proof {
            lemma_find_impl_facts(*self, trait_view(rec.trait_name), rec.concrete_type@);
        }
        self.records.push(rec);
        proof {
            assert forall|i: int, j: int| 0 <= i < j < self.records@.len() implies !implements(
                *self,
                j,
                trait_view(self.records@[i].trait_name),
                self.records@[i].concrete_type@,
            ) by {
                if j == self.records@.len() - 1 {
                    assert(!implements(*old(self), i, trait_view(rec.trait_name), rec.concrete_type@));
                } else {
                    assert(!implements(*old(self), j, trait_view(old(self).records@[i].trait_name),
                        old(self).records@[i].concrete_type@));
                }
            }
        }
        Ok(())
    }

    /// The index of the record that implements `trait_name` (or, with `None`,
    /// the inherent implementation) for `concrete_type`.
    pub fn find(&self, trait_name: Option<&str>, concrete_type: &str) -> (r: Result<usize, ResolveError>)
        ensures
            r == match find_impl(
                *self,
                match trait_name {
                    Some(t) => Some(t@),
                    None => None::<Seq<char>>,
                },
                concrete_type@,
            ) {
                Some(i) => Ok(i as usize),
                None => Err(ResolveError::NotFound),
            },
    {
        let tr: Option<String> = match trait_name {
            Some(t) => Some(String::from_str(t)),
            None => None,
        };
        let ty = String::from_str(concrete_type);
        match self.find_index(&tr, &ty) {
            Some(i) => Ok(i),
            None => Err(ResolveError::NotFound),
        }
    }

    /// The position of `method` in the table of record `rec`.
    pub fn method_index(&self, rec: usize, method: &String) -> (r: Option<usize>)
        requires
            rec < self.records@.len(),
        ensures
            match r {
                Some(j) => find_method(self.records@[rec as int].methods@, method@) == Some(j as int),
                None => find_method(self.records@[rec as int].methods@, method@) is None,
            },
    {
        let methods = &self.records[rec].methods;
        let ghost p = |j: int| names_method(methods@, j, method@);
        let mut j: usize = 0;
        while j < methods.len()
            invariant
                j <= methods@.len(),
                methods == &self.records@[rec as int].methods,
                p == (|j: int| names_method(methods@, j, method@)),
                find_method(methods@, method@) == first_where(j as int, methods@.len() as int, p),
            decreases methods@.len() - j,
        {
            if methods[j] == *method {
                return Some(j);
            }
            j = j + 1;
        }
        None
    }

    /// The method `method` of the implementation of `iface` for `ty`.
    pub fn select(&self, iface: &String, ty: &String, method: &String) -> (r: Result<MethodRef, ResolveError>)
        ensures
            r == select_method(*self, iface@, ty@, method@),
    {
        let tr = Some(iface.clone());
        match self.find_index(&tr, ty) {
            None => Err(ResolveError::NotFound),
            Some(k) => match self.method_index(k, method) {
                None => Err(ResolveError::MethodNotImplemented),
                Some(j) => Ok(MethodRef { record: k, method: j }),
            },
        }
    }
}

/// The concrete type and interface that `var` was last bound to in `sites`.
pub fn lookup_binding(sites: &Vec<BindingSite>, var: &String) -> (r: Option<usize>)
    ensures
        match r {
            Some(i) => i < sites@.len() && binding_of(sites@, var@) == Some(
                (sites@[i as int].concrete_type@, sites@[i as int].interface@),
            ),
            None => binding_of(sites@, var@) is None,
        },
{
    let mut n: usize = sites.len();
    proof {
        assert(sites@.subrange(0, n as int) =~= sites@);
    }
    while n > 0
        invariant
            n <= sites@.len(),
            binding_of(sites@, var@) == binding_of(sites@.subrange(0, n as int), var@),
        decreases n,
    {
        let ghost s = sites@.subrange(0, n as int);
        proof {
            assert(s.drop_last() =~= sites@.subrange(0, n - 1));
        }
        if sites[n - 1].variable == *var {
            return Some(n - 1);
        }
        n = n - 1;
    }
    proof {
        assert(sites@.subrange(0, 0).len() == 0);
    }
    None
}

/// A call of `method` on the variable `var`, bound at one of `sites`:
/// static dispatch by the concrete type recorded at the binding.
pub fn dispatch_in(reg: &ImplRegistry, sites: &Vec<BindingSite>, var: &String, method: &String) -> (r: Result<MethodRef, ResolveError>)
    ensures
        r == dispatch_spec(*reg, sites@, var@, method@),
{
    match lookup_binding(sites, var) {
        None => Err(ResolveError::UnresolvedReference),
        Some(i) => reg.select(&sites[i].interface, &sites[i].concrete_type, method),
    }
}

/// Binding sites, recorded in the order they occur.
pub struct Dispatcher {
    pub sites: Vec<BindingSite>,
}

impl Dispatcher {
    /// A dispatcher with no binding.
    pub fn new() -> (r: Dispatcher)
        ensures
            r.sites@.len() == 0,
    {
        Dispatcher { sites: Vec::new() }
    }

    /// Records that a value of `concrete_type` is bound to `variable`, whose
    /// type is `interface`. A later binding of the same variable wins.
    pub fn bind(&mut self, variable: &str, concrete_type: &str, interface: &str)
        ensures
            final(self).sites@.len() == old(self).sites@.len() + 1,
            final(self).sites@.drop_last() == old(self).sites@,
            final(self).sites@.last().variable@ == variable@,
            final(self).sites@.last().concrete_type@ == concrete_type@,
            final(self).sites@.last().interface@ == interface@,
            binding_of(final(self).sites@, variable@) == Some((concrete_type@, interface@)),
    {
        self.sites.push(BindingSite {
            variable: String::from_str(variable),
            concrete_type: String::from_str(concrete_type),
            interface: String::from_str(interface),
        });
        proof {
            assert(self.sites@.drop_last() =~= old(self).sites@);
        }
    }

    /// Resolves a call of `method` on `variable` to the implementation
    /// method chosen by the concrete type bound to it.
    pub fn dispatch(&self, reg: &ImplRegistry, variable: &str, method: &str) -> (r: Result<MethodRef, ResolveError>)
        ensures
            r == dispatch_spec(*reg, self.sites@, variable@, method@),
    {
        let v = String::from_str(variable);
        let m = String::from_str(method);
        dispatch_in(reg, &self.sites, &v, &m)
    }
}

/// Two variables bound to the same concrete type and interface dispatch a
/// call of the same method to the same implementation method.
pub proof fn lemma_dispatch_stable(reg: ImplRegistry, sites: Seq<BindingSite>, s1: BindingSite, s2: BindingSite, method: Seq<char>)
    requires
        s1.concrete_type@ == s2.concrete_type@,
        s1.interface@ == s2.interface@,
    ensures
        dispatch_spec(reg, sites.push(s1).push(s2), s1.variable@, method)
            == dispatch_spec(reg, sites.push(s1).push(s2), s2.variable@, method),
{
    let all = sites.push(s1).push(s2);
    let pair = (s2.concrete_type@, s2.interface@);
    assert(all.drop_last() =~= sites.push(s1));
    assert(all.last() == s2);
    assert(sites.push(s1).last() == s1);
    assert(binding_of(all, s2.variable@) == Some(pair));
    if s2.variable@ != s1.variable@ {
        assert(binding_of(all, s1.variable@) == binding_of(sites.push(s1), s1.variable@));
        assert(binding_of(sites.push(s1), s1.variable@) == Some(pair));
    }
}

/// A dispatched call lands in an implementation of the bound interface for
/// the bound concrete type, and in a method of that name.
pub proof fn lemma_dispatch_uses_bound_type(reg: ImplRegistry, sites: Seq<BindingSite>, var: Seq<char>, method: Seq<char>)
    requires
        reg.records@.len() <= usize::MAX,
        forall|i: int| 0 <= i < reg.records@.len() ==> #[trigger] reg.records@[i].methods@.len() <= usize::MAX,
        dispatch_spec(reg, sites, var, method) is Ok,
    ensures
        ({
            let mr = dispatch_spec(reg, sites, var, method)->Ok_0;
            let (ty, iface) = binding_of(sites, var)->Some_0;
            &&& mr.record < reg.records@.len()
            &&& reg.records@[mr.record as int].concrete_type@ == ty
            &&& trait_view(reg.records@[mr.record as int].trait_name) == Some(iface)
            &&& mr.method < reg.records@[mr.record as int].methods@.len()
            &&& reg.records@[mr.record as int].methods@[mr.method as int]@ == method
        }),
{
    let ty = binding_of(sites, var)->Some_0.0;
    let iface = binding_of(sites, var)->Some_0.1;
    assert(dispatch_spec(reg, sites, var, method) == select_method(reg, iface, ty, method));
    lemma_find_impl_facts(reg, Some(iface), ty);
    let k = find_impl(reg, Some(iface), ty)->Some_0;
    lemma_find_method_facts(reg.records@[k].methods@, method);
}

/// Once a record is registered, a second one for the same trait and type is
/// refused, and lookups of that pair still find the first.
pub proof fn lemma_duplicate_impl_rejected(reg: ImplRegistry, after: ImplRegistry, r1: ImplRecord, r2: ImplRecord)
    requires
        find_impl(reg, trait_view(r1.trait_name), r1.concrete_type@) is None,
        after.records@ == reg.records@.push(r1),
        trait_view(r2.trait_name) == trait_view(r1.trait_name),
        r2.concrete_type@ == r1.concrete_type@,
    ensures
        find_impl(after, trait_view(r2.trait_name), r2.concrete_type@) == Some(reg.records@.len() as int),
        after.records@[reg.records@.len() as int] == r1,
{
    let tr = trait_view(r1.trait_name);
    let ty = r1.concrete_type@;
    lemma_find_impl_facts(reg, tr, ty);
    assert forall|j: int| 0 <= j < reg.records@.len() implies !implements(after, j, tr, ty) by {
        assert(!implements(reg, j, tr, ty));
    }
    lemma_first_where_at(0, after.records@.len() as int, |i: int| implements(after, i, tr, ty), reg.records@.len() as int);
}

} // verus!
