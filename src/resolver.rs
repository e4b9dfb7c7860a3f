use vstd::prelude::*;
use crate::search::{first_where, lemma_first_where, lemma_first_where_at};

verus! {

/// The kind of a declaration. Names are unique per module and kind, except
/// for implementation blocks, which are anonymous.
#[derive(Clone, Copy, PartialEq, Eq, Structural, Debug)]
pub enum Kind {
    Const,
    Static,
    TypeAlias,
    Struct,
    Trait,
    Function,
    Impl,
}

/// Every way in which registering or resolving can fail.
#[derive(Clone, Copy, PartialEq, Eq, Structural, Debug)]
pub enum ResolveError {
    /// A module path was added twice.
    DuplicateModule,
    /// A module already declares a symbol of that name and kind.
    DuplicateDeclaration,
    /// An import alias is already bound in the module.
    ConflictingAlias,
    /// A chain of imports is longer than `MAX_IMPORT_DEPTH`.
    ImportCycle,
    /// A name is neither declared nor imported where it is used.
    UnresolvedReference,
    /// More than one implementation matches a lookup; a registry that keeps
    /// one implementation per trait and type never reports it.
    AmbiguousImplementation,
    /// An implementation of that trait for that type is already registered.
    DuplicateImplementation,
    /// The selected implementation lacks the method called.
    MethodNotImplemented,
    /// A direct lookup found nothing.
    NotFound,
}

/// How a reference uses a name.
pub enum UseKind {
    /// The name of a declaration of the given kind, used as a value, a type or
    /// a function.
    Symbol(Kind),
    /// `Name::method`: the name of a struct, then a method of its inherent
    /// implementation.
    Associated(String),
    /// `var.method()`: the name of a variable bound to an interface type, then
    /// the method called on it.
    Method(String),
}

/// A use of a bare name inside a declaration's body.
pub struct Reference {
    pub name: String,
    pub use_kind: UseKind,
}

/// A binding site inside a declaration's body: a value of `concrete_type`
/// bound to `variable`, whose declared type is `interface`.
pub struct BindingSite {
    pub variable: String,
    pub concrete_type: String,
    pub interface: String,
}

/// A declaration, with the references and binding sites found in its body.
pub struct Declaration {
    pub name: String,
    pub kind: Kind,
    pub refs: Vec<Reference>,
    pub bindings: Vec<BindingSite>,
}

/// A declaration placed in the module with the given index.
pub struct DeclEntry {
    pub module: usize,
    pub decl: Declaration,
}

/// An import in the module with the given index: `source_name` of the module
/// with path `source_module`, visible as `alias`.
pub struct ImportEntry {
    pub module: usize,
    pub source_module: String,
    pub source_name: String,
    pub alias: String,
}

/// The declaration store and the import tables of all modules, kept flat:
/// modules are indices into `modules`, which holds their paths.
pub struct SymbolTable {
    pub modules: Vec<String>,
    pub decls: Vec<DeclEntry>,
    pub imports: Vec<ImportEntry>,
}

/// How many imports a resolution follows before it gives up.
pub const MAX_IMPORT_DEPTH: usize = 16;

/// Whether module `i` has path `path`.
pub open spec fn has_path(t: SymbolTable, i: int, path: Seq<char>) -> bool {
    t.modules@[i]@ == path
}

/// The index of the module with path `path`.
pub open spec fn find_module(t: SymbolTable, path: Seq<char>) -> Option<int> {
    first_where(0, t.modules@.len() as int, |i: int| has_path(t, i, path))
}

/// Whether the declaration at `i` is `name` of `kind` in module `m`.
pub open spec fn declares(t: SymbolTable, i: int, m: int, name: Seq<char>, kind: Kind) -> bool {
    t.decls@[i].module == m && t.decls@[i].decl.name@ == name && t.decls@[i].decl.kind == kind
}

/// The first declaration of `name` of `kind` in module `m`.
pub open spec fn find_decl(t: SymbolTable, m: int, name: Seq<char>, kind: Kind) -> Option<int> {
    first_where(0, t.decls@.len() as int, |i: int| declares(t, i, m, name, kind))
}

/// Whether the import at `i` binds `alias` in module `m`.
pub open spec fn imports_as(t: SymbolTable, i: int, m: int, alias: Seq<char>) -> bool {
    t.imports@[i].module == m && t.imports@[i].alias@ == alias
}

/// The import that binds `alias` in module `m`.
pub open spec fn find_import(t: SymbolTable, m: int, alias: Seq<char>) -> Option<int> {
    first_where(0, t.imports@.len() as int, |i: int| imports_as(t, i, m, alias))
}

/// Whether module `m` declares anything named `name`, of any kind.
pub open spec fn declares_name(t: SymbolTable, m: int, name: Seq<char>) -> bool {
    exists|i: int| 0 <= i < t.decls@.len() && t.decls@[i].module == m && t.decls@[i].decl.name@ == name
}

/// Resolution of `name` of `kind` used in module `m`, following at most
/// `fuel` imports: a local declaration first, then the import of that alias,
/// resolved in its source module.
pub open spec fn resolve_spec(t: SymbolTable, m: int, name: Seq<char>, kind: Kind, fuel: nat) -> Result<usize, ResolveError>
    decreases fuel,
{
    match find_decl(t, m, name, kind) {
        Some(d) => Ok(d as usize),
        None => match find_import(t, m, name) {
            None => Err(ResolveError::UnresolvedReference),
            Some(k) => if fuel == 0 {
                Err(ResolveError::ImportCycle)
            } else {
                match find_module(t, t.imports@[k].source_module@) {
                    None => Err(ResolveError::UnresolvedReference),
                    Some(src) => resolve_spec(t, src, t.imports@[k].source_name@, kind, (fuel - 1) as nat),
                }
            },
        },
    }
}

/// Resolution of `name` of `kind` used in the module with path `path`.
pub open spec fn resolve_path(t: SymbolTable, path: Seq<char>, name: Seq<char>, kind: Kind) -> Result<usize, ResolveError> {
    match find_module(t, path) {
        None => Err(ResolveError::UnresolvedReference),
        Some(m) => resolve_spec(t, m, name, kind, MAX_IMPORT_DEPTH as nat),
    }
}

/// What `find_module` returns, in terms of the paths.
pub proof fn lemma_find_module_facts(t: SymbolTable, path: Seq<char>)
    ensures
        match find_module(t, path) {
            Some(i) => 0 <= i < t.modules@.len() && t.modules@[i]@ == path
                && forall|j: int| 0 <= j < i ==> t.modules@[j]@ != path,
            None => forall|j: int| 0 <= j < t.modules@.len() ==> t.modules@[j]@ != path,
        },
{
    let p = |i: int| has_path(t, i, path);
    lemma_first_where(0, t.modules@.len() as int, p);
    match find_module(t, path) {
        Some(i) => {
            assert forall|j: int| 0 <= j < i implies t.modules@[j]@ != path by {
                assert(!p(j));
            }
        },
        None => {
            assert forall|j: int| 0 <= j < t.modules@.len() implies t.modules@[j]@ != path by {
                assert(!p(j));
            }
        },
    }
}

/// What `find_decl` returns, in terms of the declarations.
pub proof fn lemma_find_decl_facts(t: SymbolTable, m: int, name: Seq<char>, kind: Kind)
    ensures
        match find_decl(t, m, name, kind) {
            Some(i) => 0 <= i < t.decls@.len() && declares(t, i, m, name, kind)
                && forall|j: int| 0 <= j < i ==> !declares(t, j, m, name, kind),
            None => forall|j: int| 0 <= j < t.decls@.len() ==> !declares(t, j, m, name, kind),
        },
{
    let p = |i: int| declares(t, i, m, name, kind);
    lemma_first_where(0, t.decls@.len() as int, p);
    match find_decl(t, m, name, kind) {
        Some(i) => {
            assert forall|j: int| 0 <= j < i implies !declares(t, j, m, name, kind) by {
                assert(!p(j));
            }
        },
        None => {
            assert forall|j: int| 0 <= j < t.decls@.len() implies !declares(t, j, m, name, kind) by {
                assert(!p(j));
            }
        },
    }
}

/// What `find_import` returns, in terms of the imports.
pub proof fn lemma_find_import_facts(t: SymbolTable, m: int, alias: Seq<char>)
    ensures
        match find_import(t, m, alias) {
            Some(i) => 0 <= i < t.imports@.len() && imports_as(t, i, m, alias)
                && forall|j: int| 0 <= j < i ==> !imports_as(t, j, m, alias),
            None => forall|j: int| 0 <= j < t.imports@.len() ==> !imports_as(t, j, m, alias),
        },
{
    let p = |i: int| imports_as(t, i, m, alias);
    lemma_first_where(0, t.imports@.len() as int, p);
    match find_import(t, m, alias) {
        Some(i) => {
            assert forall|j: int| 0 <= j < i implies !imports_as(t, j, m, alias) by {
                assert(!p(j));
            }
        },
        None => {
            assert forall|j: int| 0 <= j < t.imports@.len() implies !imports_as(t, j, m, alias) by {
                assert(!p(j));
            }
        },
    }
}

impl SymbolTable {
    /// Module paths are unique, every entry names an existing module, and no
    /// module declares two non-implementation symbols of one name and kind,
    /// or binds one alias twice.
    pub open spec fn wf(&self) -> bool {
        &&& forall|i: int, j: int|
            0 <= i < j < self.modules@.len() ==> self.modules@[i]@ != self.modules@[j]@
        &&& forall|i: int| 0 <= i < self.decls@.len() ==> self.decls@[i].module < self.modules@.len()
        &&& forall|i: int| 0 <= i < self.imports@.len() ==> self.imports@[i].module < self.modules@.len()
        &&& forall|i: int, j: int|
            0 <= i < j < self.decls@.len() && self.decls@[i].module == self.decls@[j].module
                && self.decls@[i].decl.name@ == self.decls@[j].decl.name@
                && self.decls@[i].decl.kind == self.decls@[j].decl.kind
                ==> self.decls@[i].decl.kind == Kind::Impl
        &&& forall|i: int, j: int|
            0 <= i < j < self.imports@.len() && self.imports@[i].module == self.imports@[j].module
                ==> self.imports@[i].alias@ != self.imports@[j].alias@
    }

    /// An empty table.
    pub fn new() -> (r: SymbolTable)
        ensures
            r.wf(),
            r.modules@.len() == 0,
            r.decls@.len() == 0,
            r.imports@.len() == 0,
    {
        SymbolTable { modules: Vec::new(), decls: Vec::new(), imports: Vec::new() }
    }

    /// The index of the module with path `path`.
    pub fn module_index(&self, path: &String) -> (r: Option<usize>)
        ensures
            match r {
                Some(i) => find_module(*self, path@) == Some(i as int) && i < self.modules@.len(),
                None => find_module(*self, path@) is None,
            },
    {
        proof {
            lemma_find_module_facts(*self, path@);
        }
        let ghost p = |i: int| has_path(*self, i, path@);
        let mut i: usize = 0;
        while i < self.modules.len()
            invariant
                i <= self.modules@.len(),
                p == (|i: int| has_path(*self, i, path@)),
                find_module(*self, path@) == first_where(i as int, self.modules@.len() as int, p),
            decreases self.modules@.len() - i,
        {
            if self.modules[i] == *path {
                return Some(i);
            }
            i = i + 1;
        }
        None
    }

    /// The index of the first declaration of `name` of `kind` in module `m`.
    pub fn decl_index(&self, m: usize, name: &String, kind: Kind) -> (r: Option<usize>)
        ensures
            match r {
                Some(i) => find_decl(*self, m as int, name@, kind) == Some(i as int) && i < self.decls@.len(),
                None => find_decl(*self, m as int, name@, kind) is None,
            },
    {
        proof {
            lemma_find_decl_facts(*self, m as int, name@, kind);
        }
        let ghost p = |i: int| declares(*self, i, m as int, name@, kind);
        let mut i: usize = 0;
        while i < self.decls.len()
            invariant
                i <= self.decls@.len(),
                p == (|i: int| declares(*self, i, m as int, name@, kind)),
                find_decl(*self, m as int, name@, kind) == first_where(i as int, self.decls@.len() as int, p),
            decreases self.decls@.len() - i,
        {
            let e = &self.decls[i];
            if e.module == m && e.decl.name == *name && e.decl.kind == kind {
                return Some(i);
            }
            i = i + 1;
        }
        None
    }

    /// The index of the import that binds `alias` in module `m`.
    pub fn import_index(&self, m: usize, alias: &String) -> (r: Option<usize>)
        ensures
            match r {
                Some(i) => find_import(*self, m as int, alias@) == Some(i as int) && i < self.imports@.len(),
                None => find_import(*self, m as int, alias@) is None,
            },
    {
        proof {
            lemma_find_import_facts(*self, m as int, alias@);
        }
        let ghost p = |i: int| imports_as(*self, i, m as int, alias@);
        let mut i: usize = 0;
        while i < self.imports.len()
            invariant
                i <= self.imports@.len(),
                p == (|i: int| imports_as(*self, i, m as int, alias@)),
                find_import(*self, m as int, alias@) == first_where(i as int, self.imports@.len() as int, p),
            decreases self.imports@.len() - i,
        {
            let e = &self.imports[i];
            if e.module == m && e.alias == *alias {
                return Some(i);
            }
            i = i + 1;
        }
        None
    }

    /// Whether module `m` declares anything named `name`.
    fn has_name(&self, m: usize, name: &String) -> (r: bool)
        ensures
            r == declares_name(*self, m as int, name@),
    {
        let mut i: usize = 0;
        while i < self.decls.len()
            invariant
                i <= self.decls@.len(),
                forall|j: int| 0 <= j < i ==> !(self.decls@[j].module == m && self.decls@[j].decl.name@ == name@),
            decreases self.decls@.len() - i,
        {
            if self.decls[i].module == m && self.decls[i].decl.name == *name {
                return true;
            }
            i = i + 1;
        }
        false
    }
}


impl SymbolTable {
    /// Adds a module with path `path`, which must be new, and returns its index.
    pub fn add_module(&mut self, path: &str) -> (r: Result<usize, ResolveError>)
        requires
            old(self).wf(),
        ensures
            final(self).wf(),
            find_module(*old(self), path@) is Some ==> r == Err::<usize, ResolveError>(ResolveError::DuplicateModule)
                && *final(self) == *old(self),
            find_module(*old(self), path@) is None ==> r == Ok::<usize, ResolveError>(old(self).modules@.len() as usize)
                && final(self).modules@.len() == old(self).modules@.len() + 1
                && final(self).modules@.last()@ == path@
                && final(self).modules@.drop_last() == old(self).modules@
                && final(self).decls == old(self).decls
                && final(self).imports == old(self).imports,
    {
        let p = String::from_str(path);
        if self.module_index(&p).is_some() {
            return Err(ResolveError::DuplicateModule);
        }
        proof {
            lemma_find_module_facts(*self, path@);
        }
        let n = self.modules.len();
        self.modules.push(p);
        proof {
            assert(self.modules@.drop_last() =~= old(self).modules@);
        }
        Ok(n)
    }

    /// Adds `decl` to the module with path `module`. A second declaration of
    /// one name and kind in a module is refused, implementation blocks aside.
    pub fn register(&mut self, module: &str, decl: Declaration) -> (r: Result<(), ResolveError>)
        requires
            old(self).wf(),
        ensures
            final(self).wf(),
            match find_module(*old(self), module@) {
                None => r == Err::<(), ResolveError>(ResolveError::NotFound) && *final(self) == *old(self),
                Some(m) => if decl.kind != Kind::Impl && find_decl(*old(self), m, decl.name@, decl.kind) is Some {
                    r == Err::<(), ResolveError>(ResolveError::DuplicateDeclaration) && *final(self) == *old(self)
                } else {
                    r == Ok::<(), ResolveError>(())
                        && final(self).modules == old(self).modules
                        && final(self).imports == old(self).imports
                        && final(self).decls@ == old(self).decls@.push((DeclEntry { module: m as usize, decl }))
                },
            },
    {
        let p = String::from_str(module);
        let m = match self.module_index(&p) {
            None => { return Err(ResolveError::NotFound); },
            Some(m) => m,
        };
        if !matches!(decl.kind, Kind::Impl) && self.decl_index(m, &decl.name, decl.kind).is_some() {
            return Err(ResolveError::DuplicateDeclaration);
        }
        proof {
            lemma_find_module_facts(*self, module@);
            lemma_find_decl_facts(*self, m as int, decl.name@, decl.kind);
        }
        let ghost k = decl.kind;
        self.decls.push(DeclEntry { module: m, decl });
        proof {
            assert forall|i: int, j: int|
                0 <= i < j < self.decls@.len() && self.decls@[i].module == self.decls@[j].module
                    && self.decls@[i].decl.name@ == self.decls@[j].decl.name@
                    && self.decls@[i].decl.kind == self.decls@[j].decl.kind
                implies self.decls@[i].decl.kind == Kind::Impl by {
                if j == self.decls@.len() - 1 && k != Kind::Impl {
                    assert(declares(*old(self), i, m as int, self.decls@[j].decl.name@, k));
                }
            }
        }
        Ok(())
    }

    /// Makes `source_name` of the module with path `source_module` visible in
    /// the module with path `module` as `alias`, which must not be bound there
    /// yet, by a declaration or by another import.
    pub fn add_import(&mut self, module: &str, source_module: &str, source_name: &str, alias: &str) -> (r: Result<(), ResolveError>)
        requires
            old(self).wf(),
        ensures
            final(self).wf(),
            match find_module(*old(self), module@) {
                None => r == Err::<(), ResolveError>(ResolveError::NotFound) && *final(self) == *old(self),
                Some(m) => if declares_name(*old(self), m, alias@) || find_import(*old(self), m, alias@) is Some {
                    r == Err::<(), ResolveError>(ResolveError::ConflictingAlias) && *final(self) == *old(self)
                } else {
                    r == Ok::<(), ResolveError>(())
                        && final(self).modules == old(self).modules
                        && final(self).decls == old(self).decls
                        && final(self).imports@.len() == old(self).imports@.len() + 1
                        && final(self).imports@.drop_last() == old(self).imports@
                        && final(self).imports@.last().module == m
                        && final(self).imports@.last().source_module@ == source_module@
                        && final(self).imports@.last().source_name@ == source_name@
                        && final(self).imports@.last().alias@ == alias@
                },
            },
    {
        let p = String::from_str(module);
        let m = match self.module_index(&p) {
            None => { return Err(ResolveError::NotFound); },
            Some(m) => m,
        };
        let a = String::from_str(alias);
        if self.has_name(m, &a) || self.import_index(m, &a).is_some() {
            return Err(ResolveError::ConflictingAlias);
        }
        proof {
            lemma_find_module_facts(*self, module@);
            lemma_find_import_facts(*self, m as int, alias@);
        }
        self.imports.push(ImportEntry {
            module: m,
            source_module: String::from_str(source_module),
            source_name: String::from_str(source_name),
            alias: a,
        });
        proof {
            assert(self.imports@.drop_last() =~= old(self).imports@);
            assert forall|i: int, j: int|
                0 <= i < j < self.imports@.len() && self.imports@[i].module == self.imports@[j].module
                implies self.imports@[i].alias@ != self.imports@[j].alias@ by {
                if j == self.imports@.len() - 1 {
                    assert(!imports_as(*old(self), i, m as int, alias@));
                }
            }
        }
        Ok(())
    }

    /// The index of the declaration `name` of `kind` in the module with path
    /// `module`, without following imports.
    pub fn lookup(&self, module: &str, name: &str, kind: Kind) -> (r: Result<usize, ResolveError>)
        ensures
            r == match find_module(*self, module@) {
                None => Err(ResolveError::NotFound),
                Some(m) => match find_decl(*self, m, name@, kind) {
                    None => Err(ResolveError::NotFound),
                    Some(d) => Ok(d as usize),
                },
            },
    {
        let p = String::from_str(module);
        let n = String::from_str(name);
        match self.module_index(&p) {
            None => Err(ResolveError::NotFound),
            Some(m) => match self.decl_index(m, &n, kind) {
                None => Err(ResolveError::NotFound),
                Some(d) => Ok(d),
            },
        }
    }

    /// The source module path and source name that `alias` stands for in the
    /// module with path `module`.
    pub fn resolve_alias(&self, module: &str, alias: &str) -> (r: Result<(String, String), ResolveError>)
        ensures
            match find_module(*self, module@) {
                None => r == Err::<(String, String), ResolveError>(ResolveError::NotFound),
                Some(m) => match find_import(*self, m, alias@) {
                    None => r == Err::<(String, String), ResolveError>(ResolveError::NotFound),
                    Some(k) => r is Ok && r->Ok_0.0@ == self.imports@[k].source_module@
                        && r->Ok_0.1@ == self.imports@[k].source_name@,
                },
            },
    {
        let p = String::from_str(module);
        let a = String::from_str(alias);
        match self.module_index(&p) {
            None => Err(ResolveError::NotFound),
            Some(m) => match self.import_index(m, &a) {
                None => Err(ResolveError::NotFound),
                Some(k) => Ok((self.imports[k].source_module.clone(), self.imports[k].source_name.clone())),
            },
        }
    }

    /// Resolves `name` of `kind` used in module `m` to the index of its
    /// declaration.
    pub fn resolve_in(&self, m: usize, name: &String, kind: Kind) -> (r: Result<usize, ResolveError>)
        ensures
            r == resolve_spec(*self, m as int, name@, kind, MAX_IMPORT_DEPTH as nat),
            r is Ok ==> r->Ok_0 < self.decls@.len(),
    {
        let mut cur_m: usize = m;
        let mut cur: &String = name;
        let mut fuel: usize = MAX_IMPORT_DEPTH;
        loop
            invariant
                resolve_spec(*self, m as int, name@, kind, MAX_IMPORT_DEPTH as nat)
                    == resolve_spec(*self, cur_m as int, cur@, kind, fuel as nat),
            decreases fuel,
        {
            if let Some(d) = self.decl_index(cur_m, cur, kind) {
                return Ok(d);
            }
            match self.import_index(cur_m, cur) {
                None => { return Err(ResolveError::UnresolvedReference); },
                Some(k) => {
                    if fuel == 0 {
                        return Err(ResolveError::ImportCycle);
                    }
                    match self.module_index(&self.imports[k].source_module) {
                        None => { return Err(ResolveError::UnresolvedReference); },
                        Some(src) => {
                            cur_m = src;
                            cur = &self.imports[k].source_name;
                            fuel = fuel - 1;
                        },
                    }
                },
            }
        }
    }

    /// Resolves `name` of `kind` used in the module with path `using_module`:
    /// a declaration of that module first, then the import of that alias,
    /// followed into its source module.
    pub fn resolve(&self, using_module: &str, name: &str, kind: Kind) -> (r: Result<usize, ResolveError>)
        ensures
            r == resolve_path(*self, using_module@, name@, kind),
    {
        let p = String::from_str(using_module);
        let n = String::from_str(name);
        match self.module_index(&p) {
            None => Err(ResolveError::UnresolvedReference),
            Some(m) => self.resolve_in(m, &n, kind),
        }
    }
}

/// In a well-formed table, the path of module `m` leads back to `m`.
pub proof fn lemma_find_module(t: SymbolTable, m: int)
    requires
        t.wf(),
        0 <= m < t.modules@.len(),
    ensures
        find_module(t, t.modules@[m]@) == Some(m),
{
    lemma_first_where_at(0, t.modules@.len() as int, |i: int| has_path(t, i, t.modules@[m]@), m);
}

/// A declaration whose name and kind no other declaration of its module
/// shares resolves, in its own module, to itself.
pub proof fn lemma_resolve_own_declaration(t: SymbolTable, d: int)
    requires
        t.wf(),
        0 <= d < t.decls@.len(),
        forall|j: int| 0 <= j < t.decls@.len() && j != d ==> !declares(t, j, t.decls@[d].module as int,
            t.decls@[d].decl.name@, t.decls@[d].decl.kind),
    ensures
        resolve_path(t, t.modules@[t.decls@[d].module as int]@, t.decls@[d].decl.name@, t.decls@[d].decl.kind)
            == Ok::<usize, ResolveError>(d as usize),
{
    let e = t.decls@[d];
    lemma_find_module(t, e.module as int);
    lemma_first_where_at(0, t.decls@.len() as int, |i: int| declares(t, i, e.module as int, e.decl.name@, e.decl.kind), d);
}

/// A name that no module declares and no import binds does not resolve.
pub proof fn lemma_unknown_name_unresolved(t: SymbolTable, path: Seq<char>, name: Seq<char>, kind: Kind)
    requires
        forall|i: int| 0 <= i < t.decls@.len() ==> t.decls@[i].decl.name@ != name,
        forall|i: int| 0 <= i < t.imports@.len() ==> t.imports@[i].alias@ != name,
    ensures
        resolve_path(t, path, name, kind) == Err::<usize, ResolveError>(ResolveError::UnresolvedReference),
{
    if let Some(m) = find_module(t, path) {
        lemma_first_where(0, t.decls@.len() as int, |i: int| declares(t, i, m, name, kind));
        lemma_first_where(0, t.imports@.len() as int, |i: int| imports_as(t, i, m, name));
    }
}

/// Aliases compose: when module `a` imports `x` of module `b` as `y`, and
/// module `c` imports `y` of `a` as `z`, then `z` used in `c` resolves to the
/// declaration of `x` in `b`.
pub proof fn lemma_import_transitive(
    t: SymbolTable,
    a: int,
    b: int,
    c: int,
    ka: int,
    kc: int,
    x: Seq<char>,
    y: Seq<char>,
    z: Seq<char>,
    kind: Kind,
)
    requires
        t.wf(),
        0 <= a < t.modules@.len(),
        0 <= b < t.modules@.len(),
        0 <= c < t.modules@.len(),
        0 <= ka < t.imports@.len(),
        0 <= kc < t.imports@.len(),
        t.imports@[ka].module == a,
        t.imports@[ka].source_module@ == t.modules@[b]@,
        t.imports@[ka].source_name@ == x,
        t.imports@[ka].alias@ == y,
        t.imports@[kc].module == c,
        t.imports@[kc].source_module@ == t.modules@[a]@,
        t.imports@[kc].source_name@ == y,
        t.imports@[kc].alias@ == z,
        !declares_name(t, a, y),
        !declares_name(t, c, z),
        find_decl(t, b, x, kind) is Some,
    ensures
        resolve_path(t, t.modules@[c]@, z, kind) == Ok::<usize, ResolveError>(find_decl(t, b, x, kind)->Some_0 as usize),
{
    lemma_find_module(t, a);
    lemma_find_module(t, b);
    lemma_find_module(t, c);
    lemma_first_where(0, t.decls@.len() as int, |i: int| declares(t, i, c, z, kind));
    lemma_first_where(0, t.decls@.len() as int, |i: int| declares(t, i, a, y, kind));
    lemma_first_where_at(0, t.imports@.len() as int, |i: int| imports_as(t, i, c, z), kc);
    lemma_first_where_at(0, t.imports@.len() as int, |i: int| imports_as(t, i, a, y), ka);
    assert(resolve_spec(t, b, x, kind, (MAX_IMPORT_DEPTH - 2) as nat) == Ok::<usize, ResolveError>(find_decl(t, b, x, kind)->Some_0 as usize));
    assert(resolve_spec(t, a, y, kind, (MAX_IMPORT_DEPTH - 1) as nat) == resolve_spec(t, b, x, kind, (MAX_IMPORT_DEPTH - 2) as nat));
}

} // verus!
