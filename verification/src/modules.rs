use vstd::prelude::*;

use crate::assembly::{
    check_script_end, end_spec, head_view, last_part, layout_spec, module_label, script_layout,
    skip_imports, DependencyChain, LayoutError,
};
use crate::resolution::{lemma_empty_cache_sound, lemma_sim_all, resolve_all_spec, sound_cache};

verus! {

broadcast use vstd::seq_lib::seq_to_set_is_finite, vstd::set_lib::lemma_set_subset_finite;

// PROCEDURES AND THE LIBRARY
// ================================================================================================

/// A procedure as far as importing it is concerned: its name, and whether its module exports it.
#[derive(Debug, PartialEq, Eq)]
pub struct ProcInfo {
    pub name: String,
    pub exported: bool,
}

impl ProcInfo {
    /// A copy of this procedure's description.
    pub fn copy(&self) -> (r: ProcInfo)
        ensures
            r == *self,
    {
        ProcInfo { name: self.name.clone(), exported: self.exported }
    }
}

fn copy_procs(procs: &Vec<ProcInfo>) -> (r: Vec<ProcInfo>)
    ensures
        r@ == procs@,
{
    let mut r: Vec<ProcInfo> = Vec::new();
    let mut i: usize = 0;
    while i < procs.len()
        invariant
            i <= procs@.len(),
            r@ == procs@.take(i as int),
        decreases procs@.len() - i,
    {
        r.push(procs[i].copy());
        i = i + 1;
        assert(r@ =~= procs@.take(i as int));
    }
    assert(procs@.take(procs@.len() as int) =~= procs@);
    r
}

/// The procedures of `procs` that their module exports, in order.
pub open spec fn exported(procs: Seq<ProcInfo>) -> Seq<ProcInfo>
    decreases procs.len(),
{
    if procs.len() == 0 {
        seq![]
    } else {
        exported(procs.drop_last()) + if procs.last().exported {
            seq![procs.last()]
        } else {
            seq![]
        }
    }
}

/// Whether a procedure is exported.
pub open spec fn exported_pred() -> spec_fn(ProcInfo) -> bool {
    |p: ProcInfo| p.exported
}

/// The exported procedures are those of `procs` marked exported, in their order: exactly the
/// filter of `procs` by the export mark, so a procedure is kept exactly when it is marked.
pub proof fn law_exported_keeps_marked(procs: Seq<ProcInfo>)
    ensures
        exported(procs) == procs.filter(exported_pred()),
        forall|p: ProcInfo| #[trigger] exported(procs).contains(p) <==> procs.contains(p) && p.exported,
        exported(procs).len() <= procs.len(),
    decreases procs.len(),
{
    reveal(Seq::filter);
    if procs.len() > 0 {
        law_exported_keeps_marked(procs.drop_last());
        let sub = procs.drop_last().filter(exported_pred());
        if procs.last().exported {
            assert(sub + seq![procs.last()] =~= sub.push(procs.last()));
        } else {
            assert(sub + Seq::<ProcInfo>::empty() =~= sub);
        }
    }
    let f = procs.filter(exported_pred());
    assert forall|p: ProcInfo| #[trigger] exported(procs).contains(p) implies procs.contains(p)
        && p.exported by {
        procs.lemma_filter_contains_rev(exported_pred(), p);
        let i = choose|i: int| 0 <= i < f.len() && f[i] == p;
        procs.lemma_filter_pred(exported_pred(), i);
    }
    assert forall|p: ProcInfo| procs.contains(p) && p.exported implies #[trigger] exported(
        procs,
    ).contains(p) by {
        let i = choose|i: int| 0 <= i < procs.len() && procs[i] == p;
        procs.lemma_filter_contains(exported_pred(), i);
    }
    procs.lemma_filter_len(exported_pred());
}

/// Keeps the exported procedures of `procs`.
pub fn exported_procs(procs: &Vec<ProcInfo>) -> (r: Vec<ProcInfo>)
    ensures
        r@ == exported(procs@),
{
    let mut r: Vec<ProcInfo> = Vec::new();
    let mut i: usize = 0;
    while i < procs.len()
        invariant
            i <= procs@.len(),
            r@ == exported(procs@.take(i as int)),
        decreases procs@.len() - i,
    {
        assert(procs@.take(i + 1).drop_last() =~= procs@.take(i as int));
        if procs[i].exported {
            r.push(procs[i].copy());
        }
        i = i + 1;
        assert(r@ =~= exported(procs@.take(i as int)));
    }
    assert(procs@.take(procs@.len() as int) =~= procs@);
    r
}

/// A module of the library the program imports from, as its source parses: its path, the
/// modules it imports (in order), its procedures, and whether tokens remain after its last
/// procedure.
pub struct LibraryModule {
    pub path: String,
    pub imports: Vec<String>,
    pub procs: Vec<ProcInfo>,
    pub dangling: bool,
}

/// The library of modules that `use` instructions name.
pub struct Library {
    pub modules: Vec<LibraryModule>,
}

/// The paths a module imports.
pub open spec fn import_paths(m: LibraryModule) -> Seq<Seq<char>> {
    m.imports@.map_values(|s: String| s@)
}

/// The paths of the library's modules.
pub open spec fn library_paths(lib: Seq<LibraryModule>) -> Seq<Seq<char>> {
    lib.map_values(|m: LibraryModule| m.path@)
}

/// The first module at or after index `i` whose path is `path`.
pub open spec fn find_from(lib: Seq<LibraryModule>, path: Seq<char>, i: int) -> Option<int>
    decreases lib.len() - i,
{
    if i < 0 || i >= lib.len() {
        None
    } else if lib[i].path@ == path {
        Some(i)
    } else {
        find_from(lib, path, i + 1)
    }
}

/// What `find_from` finds is a module with that path.
pub proof fn lemma_find_from(lib: Seq<LibraryModule>, path: Seq<char>, i: int)
    ensures
        find_from(lib, path, i) matches Some(k) ==> i <= k < lib.len() && lib[k].path@ == path,
    decreases lib.len() - i,
{
    if 0 <= i < lib.len() && lib[i].path@ != path {
        lemma_find_from(lib, path, i + 1);
    }
}

proof fn lemma_find_from_first(lib: Seq<LibraryModule>, path: Seq<char>, i: int)
    requires
        0 <= i,
        forall|j: int| 0 <= j < i ==> (#[trigger] lib[j]).path@ != path,
    ensures
        match find_from(lib, path, i) {
            Some(k) => 0 <= k < lib.len() && lib[k].path@ == path && forall|j: int|
                0 <= j < k ==> (#[trigger] lib[j]).path@ != path,
            None => forall|j: int| 0 <= j < lib.len() ==> (#[trigger] lib[j]).path@ != path,
        },
    decreases lib.len() - i,
{
    if i < lib.len() && lib[i].path@ != path {
        lemma_find_from_first(lib, path, i + 1);
    }
}

/// A path names the first library module with that path, and a path that no module has names
/// nothing.
pub proof fn law_find_first_module(lib: Seq<LibraryModule>, path: Seq<char>)
    ensures
        match find_from(lib, path, 0) {
            Some(k) => 0 <= k < lib.len() && lib[k].path@ == path && forall|j: int|
                0 <= j < k ==> (#[trigger] lib[j]).path@ != path,
            None => forall|j: int| 0 <= j < lib.len() ==> (#[trigger] lib[j]).path@ != path,
        },
{
    lemma_find_from_first(lib, path, 0);
}

impl Library {
    /// The index of the first module whose path is `path`.
    pub fn find(&self, path: &str) -> (r: Option<usize>)
        ensures
            r matches Some(k) ==> find_from(self.modules@, path@, 0) == Some(k as int),
            r is None ==> find_from(self.modules@, path@, 0) is None,
    {
        let target = path.to_owned();
        let mut i: usize = 0;
        while i < self.modules.len()
            invariant
                i <= self.modules@.len(),
                target@ == path@,
                find_from(self.modules@, path@, 0) == find_from(self.modules@, path@, i as int),
            decreases self.modules@.len() - i,
        {
            if self.modules[i].path == target {
                return Some(i);
            }
            i = i + 1;
        }
        None
    }
}

// ERRORS
// ================================================================================================

/// Why an import failed.
#[derive(Debug, PartialEq, Eq)]
pub enum ImportError {
    /// A module imports itself, directly or through others; the chain shows the cycle.
    CircularModuleDependency(Vec<String>),
    /// No module of the library has the imported path.
    MissingImportSource(String),
    /// Tokens remain after the last procedure of the module at this path.
    DanglingOpsAfterModule(String),
}

/// An import failure, by the paths it names.
pub enum ImportFailure {
    Circular(Seq<Seq<char>>),
    Missing(Seq<char>),
    Dangling(Seq<char>),
}

impl ImportError {
    /// The failure this error reports.
    pub open spec fn failure(self) -> ImportFailure {
        match self {
            ImportError::CircularModuleDependency(chain) => ImportFailure::Circular(
                chain@.map_values(|s: String| s@),
            ),
            ImportError::MissingImportSource(path) => ImportFailure::Missing(path@),
            ImportError::DanglingOpsAfterModule(path) => ImportFailure::Dangling(path@),
        }
    }
}

// THE CACHE OF PARSED MODULES
// ================================================================================================

/// The exported procedures of each parsed module, by path.
pub type ModuleMap = Map<Seq<char>, Seq<ProcInfo>>;

/// The map that a list of entries stands for; a later entry for a path replaces an earlier one.
pub open spec fn entries_map(e: Seq<(String, Vec<ProcInfo>)>) -> ModuleMap
    decreases e.len(),
{
    if e.len() == 0 {
        Map::empty()
    } else {
        entries_map(e.drop_last()).insert(e.last().0@, e.last().1@)
    }
}

proof fn lemma_entries_suffix(e: Seq<(String, Vec<ProcInfo>)>, i: int, path: Seq<char>)
    requires
        0 <= i <= e.len(),
        forall|j: int| i <= j < e.len() ==> #[trigger] e[j].0@ != path,
    ensures
        entries_map(e).contains_key(path) == entries_map(e.take(i)).contains_key(path),
        entries_map(e).contains_key(path) ==> entries_map(e)[path] == entries_map(e.take(i))[path],
    decreases e.len(),
{
    if i == e.len() {
        assert(e.take(i) =~= e);
    } else {
        let d = e.drop_last();
        assert(e[e.len() - 1].0@ != path);
        assert(d.take(i) =~= e.take(i));
        assert forall|j: int| i <= j < d.len() implies #[trigger] d[j].0@ != path by {
            assert(d[j] == e[j]);
        }
        lemma_entries_suffix(d, i, path);
    }
}

/// The modules parsed so far, with the procedures each exports.
///
/// The cache is a list of entries, a later entry for a path replacing an earlier one, rather
/// than a map keyed by path: a standard map keyed by `String` gives no usable account of which
/// keys it holds, while this list has its meaning as a map stated and proved (`entries_map`).
/// A module's procedures are kept in source order.
pub struct ModuleCache {
    entries: Vec<(String, Vec<ProcInfo>)>,
}

impl View for ModuleCache {
    type V = ModuleMap;

    closed spec fn view(&self) -> ModuleMap {
        entries_map(self.entries@)
    }
}

impl ModuleCache {
    /// A cache in which no module has been parsed.
    pub fn new() -> (c: ModuleCache)
        ensures
            c@ == ModuleMap::empty(),
    {
        ModuleCache { entries: Vec::new() }
    }

    fn lookup(&self, path: &str) -> (r: Option<usize>)
        ensures
            r is None <==> !self@.contains_key(path@),
            r matches Some(k) ==> k < self.entries@.len() && self@[path@] == self.entries@[k as int].1@,
    {
        let target = path.to_owned();
        let mut i: usize = self.entries.len();
        while i > 0
            invariant
                i <= self.entries@.len(),
                target@ == path@,
                forall|j: int| i <= j < self.entries@.len() ==> #[trigger] self.entries@[j].0@ != path@,
            decreases i,
        {
            i = i - 1;
            if self.entries[i].0 == target {
                proof {
                    let e = self.entries@;
                    lemma_entries_suffix(e, i + 1, path@);
                    assert(e.take(i + 1).drop_last() =~= e.take(i as int));
                    assert(e.take(i + 1).last() == e[i as int]);
                }
                return Some(i);
            }
        }
        proof {
            lemma_entries_suffix(self.entries@, 0, path@);
            assert(self.entries@.take(0) =~= Seq::<(String, Vec<ProcInfo>)>::empty());
        }
        None
    }

    /// Whether the module at `path` has been parsed.
    pub fn contains(&self, path: &str) -> (r: bool)
        ensures
            r == self@.contains_key(path@),
    {
        self.lookup(path).is_some()
    }

    /// The exported procedures of the module at `path`, if it has been parsed.
    pub fn get(&self, path: &str) -> (r: Option<Vec<ProcInfo>>)
        ensures
            r is None <==> !self@.contains_key(path@),
            r matches Some(procs) ==> procs@ == self@[path@],
    {
        match self.lookup(path) {
            None => None,
            Some(k) => Some(copy_procs(&self.entries[k].1)),
        }
    }

    /// Ends the parsing of the module at `path`, whose procedures are `procs`: when tokens
    /// remain after them (`dangling`) the module is refused; otherwise its exported procedures
    /// are cached under its path and returned.
    pub fn add_module(&mut self, path: &str, procs: &Vec<ProcInfo>, dangling: bool) -> (r: Result<
        Vec<ProcInfo>,
        ImportError,
    >)
        ensures
            dangling ==> {
                &&& r matches Err(e) && e.failure() == ImportFailure::Dangling(path@)
                &&& final(self)@ == old(self)@
            },
            !dangling ==> {
                &&& r matches Ok(v) && v@ == exported(procs@)
                &&& final(self)@ == old(self)@.insert(path@, exported(procs@))
            },
    {
        if dangling {
            return Err(ImportError::DanglingOpsAfterModule(path.to_owned()));
        }
        let kept = exported_procs(procs);
        let cached = copy_procs(&kept);
        self.entries.push((path.to_owned(), cached));
        proof {
            let e = self.entries@;
            assert(e.drop_last() =~= old(self).entries@);
        }
        Ok(kept)
    }
}

/// What an import gives: its result, the cache it leaves, and the dependency chain it leaves.
pub struct ImportOutcome {
    pub result: Result<Seq<ProcInfo>, ImportFailure>,
    pub cache: ModuleMap,
    pub chain: Seq<Seq<char>>,
}

/// What a list of imports gives: for each import, the label it is known by and the
/// procedures it brings in.
pub struct ImportsOutcome {
    pub result: Result<Seq<(Seq<char>, Seq<ProcInfo>)>, ImportFailure>,
    pub cache: ModuleMap,
    pub chain: Seq<Seq<char>>,
}

/// How many library modules are not on `chain`: it shrinks each time an import goes one
/// module deeper, so imports end.
pub open spec fn unvisited(lib: Seq<LibraryModule>, chain: Seq<Seq<char>>) -> nat {
    library_paths(lib).to_set().filter(|p: Seq<char>| !chain.contains(p)).len()
}

/// Entering a library module that is not on the chain leaves fewer modules unvisited.
pub proof fn lemma_unvisited_push(lib: Seq<LibraryModule>, chain: Seq<Seq<char>>, k: int)
    requires
        0 <= k < lib.len(),
        !chain.contains(lib[k].path@),
    ensures
        unvisited(lib, chain.push(lib[k].path@)) < unvisited(lib, chain),
{
    let p = lib[k].path@;
    let all = library_paths(lib).to_set();
    let before = all.filter(|q: Seq<char>| !chain.contains(q));
    let after = all.filter(|q: Seq<char>| !chain.push(p).contains(q));
    assert(library_paths(lib)[k] == p);
    assert(before.subset_of(all));
    assert forall|q: Seq<char>| #[trigger] chain.push(p).contains(q) == (chain.contains(q) || q == p) by {
        if chain.push(p).contains(q) {
            let j = choose|j: int| 0 <= j < chain.push(p).len() && chain.push(p)[j] == q;
            if j < chain.len() {
                assert(chain[j] == q);
            }
        }
        if chain.contains(q) {
            let j = choose|j: int| 0 <= j < chain.len() && chain[j] == q;
            assert(chain.push(p)[j] == q);
        }
        if q == p {
            assert(chain.push(p)[chain.len() as int] == q);
        }
    }
    assert(after =~= before.remove(p));
    assert(before.contains(p));
}

/// Importing `path` with `cache` and `chain`: a module already on the chain is a circular
/// import; a module already parsed is not parsed again; otherwise the module is looked up in
/// the library, parsed with the module entered on the chain, and left again. The result is the
/// module's exported procedures.
pub open spec fn import_spec(
    lib: Seq<LibraryModule>,
    cache: ModuleMap,
    chain: Seq<Seq<char>>,
    path: Seq<char>,
) -> ImportOutcome
    decreases unvisited(lib, chain), 0nat, 0int,
{
    let entered = chain.push(path);
    if chain.contains(path) {
        ImportOutcome { result: Err(ImportFailure::Circular(entered)), cache, chain: entered }
    } else if cache.contains_key(path) {
        ImportOutcome { result: Ok(cache[path]), cache, chain }
    } else {
        match find_from(lib, path, 0) {
            None => ImportOutcome { result: Err(ImportFailure::Missing(path)), cache, chain: entered },
            Some(k) => {
                proof {
                    lemma_find_from(lib, path, 0);
                    lemma_unvisited_push(lib, chain, k);
                }
                let parsed = module_spec(lib, cache, entered, k);
                match parsed.result {
                    Ok(procs) => ImportOutcome { result: Ok(procs), cache: parsed.cache, chain },
                    Err(e) => parsed,
                }
            },
        }
    }
}

/// Parsing library module `k`, already entered on `chain`: its imports first, then its
/// procedures, of which the exported ones are cached under its path.
pub open spec fn module_spec(
    lib: Seq<LibraryModule>,
    cache: ModuleMap,
    chain: Seq<Seq<char>>,
    k: int,
) -> ImportOutcome
    decreases unvisited(lib, chain), 2nat, 0int,
{
    let m = lib[k];
    let imported = imports_spec(lib, cache, chain, import_paths(m), 0);
    match imported.result {
        Err(e) => ImportOutcome { result: Err(e), cache: imported.cache, chain: imported.chain },
        Ok(_) => if m.dangling {
            ImportOutcome {
                result: Err(ImportFailure::Dangling(m.path@)),
                cache: imported.cache,
                chain,
            }
        } else {
            ImportOutcome {
                result: Ok(exported(m.procs@)),
                cache: imported.cache.insert(m.path@, exported(m.procs@)),
                chain,
            }
        },
    }
}

/// An import that succeeds leaves the chain as it found it.
pub proof fn lemma_import_restores_chain(
    lib: Seq<LibraryModule>,
    cache: ModuleMap,
    chain: Seq<Seq<char>>,
    paths: Seq<Seq<char>>,
    i: int,
)
    ensures
        imports_spec(lib, cache, chain, paths, i).result is Ok ==> imports_spec(
            lib,
            cache,
            chain,
            paths,
            i,
        ).chain == chain,
    decreases paths.len() - i,
{
    if 0 <= i < paths.len() {
        let first = import_spec(lib, cache, chain, paths[i]);
        if first.result is Ok {
            lemma_import_restores_chain(lib, first.cache, chain, paths, i + 1);
        }
    }
}

/// Importing `paths[i..]` in order, stopping at the first failure. Each import is labelled by
/// the last part of its path.
pub open spec fn imports_spec(
    lib: Seq<LibraryModule>,
    cache: ModuleMap,
    chain: Seq<Seq<char>>,
    paths: Seq<Seq<char>>,
    i: int,
) -> ImportsOutcome
    decreases unvisited(lib, chain), 1nat, paths.len() - i,
{
    if i < 0 || i >= paths.len() {
        ImportsOutcome { result: Ok(seq![]), cache, chain }
    } else {
        let first = import_spec(lib, cache, chain, paths[i]);
        match first.result {
            Err(e) => ImportsOutcome { result: Err(e), cache: first.cache, chain: first.chain },
            Ok(procs) => {
                let rest = imports_spec(lib, first.cache, chain, paths, i + 1);
                ImportsOutcome {
                    result: match rest.result {
                        Ok(l) => Ok(seq![(last_part(paths[i]), procs)] + l),
                        Err(e) => Err(e),
                    },
                    cache: rest.cache,
                    chain: rest.chain,
                }
            },
        }
    }
}

// LAWS OF IMPORTING
// ================================================================================================

/// A module is parsed at most once and the cache only grows: an import keeps every entry it
/// finds in the cache, adds none for a module on the chain, and on success leaves the imported
/// module cached with the procedures it returns.
#[verifier::spinoff_prover]
pub proof fn law_import_cache(
    lib: Seq<LibraryModule>,
    cache: ModuleMap,
    chain: Seq<Seq<char>>,
    path: Seq<char>,
)
    ensures
        ({
            let o = import_spec(lib, cache, chain, path);
            &&& forall|q: Seq<char>|
                cache.contains_key(q) ==> #[trigger] o.cache.contains_key(q) && o.cache[q] == cache[q]
            &&& forall|q: Seq<char>|
                #[trigger] o.cache.contains_key(q) && !cache.contains_key(q) ==> !chain.contains(q)
            &&& o.result matches Ok(procs) ==> o.cache.contains_key(path) && o.cache[path] == procs
        }),
    decreases unvisited(lib, chain), 0nat, 0int,
{
    let o = import_spec(lib, cache, chain, path);
    if !chain.contains(path) && !cache.contains_key(path) {
        lemma_find_from(lib, path, 0);
        if let Some(k) = find_from(lib, path, 0) {
            lemma_unvisited_push(lib, chain, k);
            let entered = chain.push(path);
            assert(entered[chain.len() as int] == path);
            lemma_module_cache(lib, cache, entered, k);
            assert forall|q: Seq<char>|
                #[trigger] o.cache.contains_key(q) && !cache.contains_key(q) implies !chain.contains(q) by {
                if chain.contains(q) {
                    let j = choose|j: int| 0 <= j < chain.len() && chain[j] == q;
                    assert(entered[j] == q);
                }
            }
        }
    }
    assert(forall|q: Seq<char>|
        cache.contains_key(q) ==> #[trigger] o.cache.contains_key(q) && o.cache[q] == cache[q]);
    assert(forall|q: Seq<char>|
        #[trigger] o.cache.contains_key(q) && !cache.contains_key(q) ==> !chain.contains(q));
    assert(o.result matches Ok(procs) ==> o.cache.contains_key(path) && o.cache[path] == procs);
}

/// Parsing a module keeps the cache's entries, adds none for a module on the chain other than
/// the module itself, and caches the module with the procedures it returns.
#[verifier::spinoff_prover]
pub proof fn lemma_module_cache(lib: Seq<LibraryModule>, cache: ModuleMap, chain: Seq<Seq<char>>, k: int)
    requires
        0 <= k < lib.len(),
        chain.contains(lib[k].path@),
        !cache.contains_key(lib[k].path@),
    ensures
        ({
            let o = module_spec(lib, cache, chain, k);
            &&& forall|q: Seq<char>|
                cache.contains_key(q) ==> #[trigger] o.cache.contains_key(q) && o.cache[q] == cache[q]
            &&& forall|q: Seq<char>|
                #[trigger] o.cache.contains_key(q) && !cache.contains_key(q) ==> !chain.contains(q)
                    || q == lib[k].path@
            &&& o.result matches Ok(procs) ==> o.cache.contains_key(lib[k].path@) && o.cache[lib[k].path@]
                == procs
        }),
    decreases unvisited(lib, chain), 2nat, 0int,
{
    let p = lib[k].path@;
    lemma_imports_cache(lib, cache, chain, import_paths(lib[k]), 0);
    let imp = imports_spec(lib, cache, chain, import_paths(lib[k]), 0);
    let o = module_spec(lib, cache, chain, k);
    assert(!imp.cache.contains_key(p));
    if imp.result is Ok && !lib[k].dangling {
        assert(o.cache == imp.cache.insert(p, exported(lib[k].procs@)));
        assert forall|q: Seq<char>| cache.contains_key(q) implies #[trigger] o.cache.contains_key(q)
            && o.cache[q] == cache[q] by {
            assert(imp.cache.contains_key(q));
            assert(q != p);
        }
        assert forall|q: Seq<char>|
            #[trigger] o.cache.contains_key(q) && !cache.contains_key(q) implies !chain.contains(q)
                || q == p by {
            if q != p {
                assert(imp.cache.contains_key(q));
            }
        }
    } else {
        assert(o.cache == imp.cache);
        assert forall|q: Seq<char>| cache.contains_key(q) implies #[trigger] o.cache.contains_key(q)
            && o.cache[q] == cache[q] by {
            assert(imp.cache.contains_key(q));
        }
        assert forall|q: Seq<char>|
            #[trigger] o.cache.contains_key(q) && !cache.contains_key(q) implies !chain.contains(q)
                || q == p by {
            assert(imp.cache.contains_key(q));
        }
    }
}

/// A list of imports keeps the cache's entries and adds none for a module on the chain.
#[verifier::spinoff_prover]
pub proof fn lemma_imports_cache(
    lib: Seq<LibraryModule>,
    cache: ModuleMap,
    chain: Seq<Seq<char>>,
    paths: Seq<Seq<char>>,
    i: int,
)
    ensures
        ({
            let o = imports_spec(lib, cache, chain, paths, i);
            &&& forall|q: Seq<char>|
                cache.contains_key(q) ==> #[trigger] o.cache.contains_key(q) && o.cache[q] == cache[q]
            &&& forall|q: Seq<char>|
                #[trigger] o.cache.contains_key(q) && !cache.contains_key(q) ==> !chain.contains(q)
        }),
    decreases unvisited(lib, chain), 1nat, paths.len() - i,
{
    let o = imports_spec(lib, cache, chain, paths, i);
    if 0 <= i < paths.len() {
        law_import_cache(lib, cache, chain, paths[i]);
        let first = import_spec(lib, cache, chain, paths[i]);
        if first.result is Ok {
            lemma_imports_cache(lib, first.cache, chain, paths, i + 1);
            let rest = imports_spec(lib, first.cache, chain, paths, i + 1);
            assert(o.cache == rest.cache);
            assert forall|q: Seq<char>| cache.contains_key(q) implies #[trigger] o.cache.contains_key(q)
                && o.cache[q] == cache[q] by {
                assert(first.cache.contains_key(q));
                assert(rest.cache.contains_key(q));
            }
            assert forall|q: Seq<char>|
                #[trigger] o.cache.contains_key(q) && !cache.contains_key(q) implies !chain.contains(q) by {
                assert(rest.cache.contains_key(q));
                if !first.cache.contains_key(q) {
                    assert(!chain.contains(q));
                }
            }
        } else {
            assert(o.cache == first.cache);
            assert forall|q: Seq<char>| cache.contains_key(q) implies #[trigger] o.cache.contains_key(q)
                && o.cache[q] == cache[q] by {
                assert(first.cache.contains_key(q));
            }
            assert forall|q: Seq<char>|
                #[trigger] o.cache.contains_key(q) && !cache.contains_key(q) implies !chain.contains(q) by {
                assert(first.cache.contains_key(q));
            }
        }
    } else {
        assert(o.cache == cache);
    }
}

proof fn lemma_repeat_from(
    lib: Seq<LibraryModule>,
    c: ModuleMap,
    chain: Seq<Seq<char>>,
    paths: Seq<Seq<char>>,
    i: int,
    big: ModuleMap,
)
    requires
        imports_spec(lib, c, chain, paths, i).result is Ok,
        forall|q: Seq<char>|
            imports_spec(lib, c, chain, paths, i).cache.contains_key(q) ==> #[trigger] big.contains_key(q)
                && big[q] == imports_spec(lib, c, chain, paths, i).cache[q],
    ensures
        imports_spec(lib, big, chain, paths, i) == (ImportsOutcome {
            result: imports_spec(lib, c, chain, paths, i).result,
            cache: big,
            chain,
        }),
    decreases paths.len() - i,
{
    let o = imports_spec(lib, c, chain, paths, i);
    if 0 <= i < paths.len() {
        let p = paths[i];
        law_import_cache(lib, c, chain, p);
        let first = import_spec(lib, c, chain, p);
        let rest = imports_spec(lib, first.cache, chain, paths, i + 1);
        lemma_imports_cache(lib, first.cache, chain, paths, i + 1);
        assert(first.result is Ok);
        assert(!chain.contains(p));
        assert(rest.result is Ok);
        assert(o.cache == rest.cache);
        assert(rest.cache.contains_key(p));
        assert(big.contains_key(p) && big[p] == first.result->Ok_0);
        lemma_repeat_from(lib, first.cache, chain, paths, i + 1, big);
        let again = import_spec(lib, big, chain, p);
        assert(again.result == first.result && again.cache == big && again.chain == chain);
    } else {
        assert(o.result == Ok::<Seq<(Seq<char>, Seq<ProcInfo>)>, ImportFailure>(seq![]));
    }
}

/// Importing the same paths again, after they were imported successfully, gives the same
/// result and leaves the cache and the chain as they are: every module comes from the cache.
pub proof fn law_repeat_imports(
    lib: Seq<LibraryModule>,
    cache: ModuleMap,
    chain: Seq<Seq<char>>,
    paths: Seq<Seq<char>>,
)
    requires
        imports_spec(lib, cache, chain, paths, 0).result is Ok,
    ensures
        ({
            let first = imports_spec(lib, cache, chain, paths, 0);
            imports_spec(lib, first.cache, chain, paths, 0) == (ImportsOutcome {
                result: first.result,
                cache: first.cache,
                chain,
            })
        }),
{
    let first = imports_spec(lib, cache, chain, paths, 0);
    lemma_repeat_from(lib, cache, chain, paths, 0, first.cache);
}

/// A list of imports that succeeds gives one entry per path, in order: the path's last part as
/// its label, and the procedures the cache then holds for that path.
pub proof fn law_imports_each_path(
    lib: Seq<LibraryModule>,
    cache: ModuleMap,
    chain: Seq<Seq<char>>,
    paths: Seq<Seq<char>>,
    i: int,
)
    requires
        0 <= i <= paths.len(),
    ensures
        ({
            let o = imports_spec(lib, cache, chain, paths, i);
            o.result is Ok ==> {
                let l = o.result->Ok_0;
                &&& l.len() == paths.len() - i
                &&& forall|j: int|
                    i <= j < paths.len() ==> {
                        &&& (#[trigger] l[j - i]).0 == last_part(paths[j])
                        &&& o.cache.contains_key(paths[j])
                        &&& l[j - i].1 == o.cache[paths[j]]
                    }
            }
        }),
    decreases paths.len() - i,
{
    let o = imports_spec(lib, cache, chain, paths, i);
    if i < paths.len() {
        law_import_cache(lib, cache, chain, paths[i]);
        let first = import_spec(lib, cache, chain, paths[i]);
        if first.result is Ok {
            law_imports_each_path(lib, first.cache, chain, paths, i + 1);
            lemma_imports_cache(lib, first.cache, chain, paths, i + 1);
            let rest = imports_spec(lib, first.cache, chain, paths, i + 1);
            if o.result is Ok {
                let l = o.result->Ok_0;
                let lr = rest.result->Ok_0;
                assert(l == seq![(last_part(paths[i]), first.result->Ok_0)] + lr);
                assert forall|j: int| i <= j < paths.len() implies {
                    &&& (#[trigger] l[j - i]).0 == last_part(paths[j])
                    &&& o.cache.contains_key(paths[j])
                    &&& l[j - i].1 == o.cache[paths[j]]
                } by {
                    if j == i {
                        assert(first.cache.contains_key(paths[i]));
                        assert(rest.cache.contains_key(paths[i]));
                    } else {
                        assert(l[j - i] == lr[j - (i + 1)]);
                    }
                }
            }
        }
    } else {
        assert(o.result == Ok::<Seq<(Seq<char>, Seq<ProcInfo>)>, ImportFailure>(seq![]));
    }
}

/// Importing a module that is not cached yet resolves every `use` of it: when the import
/// succeeds, the module is the library's module of that path, it has no trailing tokens, every
/// path it imports is cached afterwards, and the result is its exported procedures.
pub proof fn law_import_resolves_every_use(
    lib: Seq<LibraryModule>,
    cache: ModuleMap,
    chain: Seq<Seq<char>>,
    path: Seq<char>,
)
    ensures
        ({
            let o = import_spec(lib, cache, chain, path);
            o.result is Ok && !cache.contains_key(path) ==> {
                &&& find_from(lib, path, 0) is Some
                &&& ({
                    let k = find_from(lib, path, 0)->Some_0;
                    &&& 0 <= k < lib.len()
                    &&& lib[k].path@ == path
                    &&& !lib[k].dangling
                    &&& forall|j: int|
                        0 <= j < lib[k].imports@.len() ==> o.cache.contains_key(
                            (#[trigger] lib[k].imports@[j])@,
                        )
                    &&& o.result == Ok::<Seq<ProcInfo>, ImportFailure>(exported(lib[k].procs@))
                })
            }
        }),
{
    let o = import_spec(lib, cache, chain, path);
    lemma_find_from(lib, path, 0);
    if o.result is Ok && !cache.contains_key(path) && !chain.contains(path) {
        if let Some(k) = find_from(lib, path, 0) {
            let entered = chain.push(path);
            let ps = import_paths(lib[k]);
            law_imports_each_path(lib, cache, entered, ps, 0);
            let imp = imports_spec(lib, cache, entered, ps, 0);
            assert(imp.result is Ok);
            assert(o.cache == imp.cache.insert(path, exported(lib[k].procs@)));
            assert forall|j: int| 0 <= j < lib[k].imports@.len() implies o.cache.contains_key(
                (#[trigger] lib[k].imports@[j])@,
            ) by {
                assert(ps[j] == lib[k].imports@[j]@);
                let l = imp.result->Ok_0;
                assert(l[j - 0].0 == last_part(ps[j]));
                assert(imp.cache.contains_key(ps[j]));
            }
        }
    }
}

// IMPORTING
// ================================================================================================

/// The procedures one `use` brings in, under the label of the imported module.
#[derive(Debug, PartialEq, Eq)]
pub struct Import {
    pub label: String,
    pub procs: Vec<ProcInfo>,
}

/// Imports by label and procedures.
pub open spec fn imports_view(v: Seq<Import>) -> Seq<(Seq<char>, Seq<ProcInfo>)> {
    v.map_values(|m: Import| (m.label@, m.procs@))
}

/// `o` with the imports `done` in front of what it imports.
pub open spec fn after(done: Seq<(Seq<char>, Seq<ProcInfo>)>, o: ImportsOutcome) -> ImportsOutcome {
    ImportsOutcome {
        result: match o.result {
            Ok(l) => Ok(done + l),
            Err(e) => Err(e),
        },
        cache: o.cache,
        chain: o.chain,
    }
}

proof fn lemma_after_empty(o: ImportsOutcome)
    ensures
        after(seq![], o) == o,
{
    if let Ok(l) = o.result {
        assert(Seq::<(Seq<char>, Seq<ProcInfo>)>::empty() + l =~= l);
    }
}

proof fn lemma_after_after(
    a: Seq<(Seq<char>, Seq<ProcInfo>)>,
    b: Seq<(Seq<char>, Seq<ProcInfo>)>,
    o: ImportsOutcome,
)
    ensures
        after(a, after(b, o)) == after(a + b, o),
{
    if let Ok(l) = o.result {
        assert(a + (b + l) =~= (a + b) + l);
    }
}

impl ModuleCache {
    /// Imports the module at `path`, as one `use` instruction does, and returns its exported
    /// procedures.
    ///
    /// A module already on `chain` makes the import circular. A module that has been parsed
    /// before is not parsed again. Otherwise the module is looked up in `library` (failing when
    /// it is missing) and parsed with it entered on `chain`; its own imports go through the
    /// same chain. On success the chain is as it was.
    pub fn import(&mut self, library: &Library, chain: &mut DependencyChain, path: &str) -> (r: Result<
        Vec<ProcInfo>,
        ImportError,
    >)
        ensures
            ({
                let o = import_spec(library.modules@, old(self)@, old(chain)@, path@);
                &&& final(self)@ == o.cache
                &&& final(chain)@ == o.chain
                &&& match r {
                    Ok(v) => o.result == Ok::<Seq<ProcInfo>, ImportFailure>(v@),
                    Err(e) => o.result == Err::<Seq<ProcInfo>, ImportFailure>(e.failure()),
                }
            }),
        decreases unvisited(library.modules@, old(chain)@), 0nat, 0int,
    {
        let ghost lib = library.modules@;
        let ghost chain0 = chain@;
        match chain.enter(path) {
            Err(cycle) => {
                return Err(ImportError::CircularModuleDependency(cycle));
            },
            Ok(()) => {},
        }
        match self.get(path) {
            Some(procs) => {
                chain.leave();
                assert(chain@ =~= chain0);
                return Ok(procs);
            },
            None => {},
        }
        match library.find(path) {
            None => Err(ImportError::MissingImportSource(path.to_owned())),
            Some(k) => {
                proof {
                    lemma_find_from(lib, path@, 0);
                    lemma_unvisited_push(lib, chain0, k as int);
                }
                match self.parse_module(library, chain, k) {
                    Ok(procs) => {
                        chain.leave();
                        assert(chain@ =~= chain0);
                        Ok(procs)
                    },
                    Err(e) => Err(e),
                }
            },
        }
    }

    /// Parses module `index` of `library`, which is entered on `chain`: its imports, then its
    /// procedures; the exported ones are cached under its path and returned.
    pub fn parse_module(&mut self, library: &Library, chain: &mut DependencyChain, index: usize) -> (r:
        Result<Vec<ProcInfo>, ImportError>)
        requires
            index < library.modules@.len(),
        ensures
            ({
                let o = module_spec(library.modules@, old(self)@, old(chain)@, index as int);
                &&& final(self)@ == o.cache
                &&& final(chain)@ == o.chain
                &&& match r {
                    Ok(v) => o.result == Ok::<Seq<ProcInfo>, ImportFailure>(v@),
                    Err(e) => o.result == Err::<Seq<ProcInfo>, ImportFailure>(e.failure()),
                }
            }),
        decreases unvisited(library.modules@, old(chain)@), 2nat, 0int,
    {
        let module = &library.modules[index];
        proof {
            lemma_import_restores_chain(
                library.modules@,
                old(self)@,
                old(chain)@,
                import_paths(library.modules@[index as int]),
                0,
            );
        }
        match self.parse_imports(library, chain, &module.imports) {
            Err(e) => {
                return Err(e);
            },
            Ok(_) => {},
        }
        self.add_module(module.path.as_str(), &module.procs, module.dangling)
    }

    /// Imports `paths` in order, as the `use` instructions at the head of a program or module
    /// do, stopping at the first failure. Each import comes labelled by the last part of its
    /// path, under which its procedures are known.
    pub fn parse_imports(&mut self, library: &Library, chain: &mut DependencyChain, paths: &Vec<String>) -> (r:
        Result<Vec<Import>, ImportError>)
        ensures
            ({
                let o = imports_spec(
                    library.modules@,
                    old(self)@,
                    old(chain)@,
                    paths@.map_values(|s: String| s@),
                    0,
                );
                &&& final(self)@ == o.cache
                &&& final(chain)@ == o.chain
                &&& match r {
                    Ok(v) => o.result == Ok::<Seq<(Seq<char>, Seq<ProcInfo>)>, ImportFailure>(
                        imports_view(v@),
                    ),
                    Err(e) => o.result == Err::<Seq<(Seq<char>, Seq<ProcInfo>)>, ImportFailure>(
                        e.failure(),
                    ),
                }
            }),
        decreases unvisited(library.modules@, old(chain)@), 1nat, paths@.len(),
    {
        let ghost lib = library.modules@;
        let ghost chain0 = chain@;
        let ghost cache0 = self@;
        let ghost ps = paths@.map_values(|s: String| s@);
        let mut done: Vec<Import> = Vec::new();
        let mut i: usize = 0;
        proof {
            lemma_after_empty(imports_spec(lib, cache0, chain0, ps, 0));
            assert(imports_view(done@) =~= Seq::<(Seq<char>, Seq<ProcInfo>)>::empty());
        }
        while i < paths.len()
            invariant
                i <= paths@.len(),
                lib == library.modules@,
                ps == paths@.map_values(|s: String| s@),
                chain@ == chain0,
                chain0 == old(chain)@,
                cache0 == old(self)@,
                imports_spec(lib, cache0, chain0, ps, 0) == after(
                    imports_view(done@),
                    imports_spec(lib, self@, chain0, ps, i as int),
                ),
            decreases paths@.len() - i,
        {
            let ghost cache_i = self@;
            let ghost rest = imports_spec(lib, cache_i, chain0, ps, i as int);
            let path = paths[i].as_str();
            assert(path@ == ps[i as int]);
            match self.import(library, chain, path) {
                Err(e) => {
                    proof {
                        assert(rest.result == Err::<Seq<(Seq<char>, Seq<ProcInfo>)>, ImportFailure>(e.failure()));
                        assert(rest.cache == self@);
                        assert(rest.chain == chain@);
                    }
                    return Err(e);
                },
                Ok(procs) => {
                    let label = module_label(path).to_owned();
                    let ghost item = (label@, procs@);
                    proof {
                        let tail = imports_spec(lib, self@, chain0, ps, i + 1);
                        assert(rest == after(seq![item], tail));
                        lemma_after_after(imports_view(done@), seq![item], tail);
                    }
                    let ghost done_before = done@;
                    done.push(Import { label, procs });
                    assert(imports_view(done@) =~= imports_view(done_before) + seq![item]);
                    i = i + 1;
                },
            }
        }
        proof {
            let o = imports_spec(lib, self@, chain0, ps, i as int);
            assert(imports_view(done@) + Seq::<(Seq<char>, Seq<ProcInfo>)>::empty() =~= imports_view(done@));
        }
        Ok(done)
    }
}

// THE ASSEMBLER
// ================================================================================================

/// Why a script could not be assembled.
#[derive(Debug, PartialEq, Eq)]
pub enum AssemblyError {
    /// One of the script's imports failed.
    Import(ImportError),
    /// The script's leading tokens are out of order at the given position.
    Layout(usize, LayoutError),
    /// The script body is not closed by a final `end`.
    ScriptEnd(LayoutError),
}

/// The assembler: the library that `use` instructions import from, and the modules of it
/// parsed so far, which later scripts reuse.
pub struct Assembler {
    library: Library,
    parsed_modules: ModuleCache,
}

impl Assembler {
    /// The library modules.
    pub closed spec fn library_spec(self) -> Seq<LibraryModule> {
        self.library.modules@
    }

    /// The modules parsed so far.
    pub closed spec fn parsed(self) -> ModuleMap {
        self.parsed_modules@
    }

    /// The cache holds nothing but what fresh resolution of the library gives.
    pub open spec fn wf(self) -> bool {
        sound_cache(self.library_spec(), self.parsed())
    }

    /// An assembler over `library` that has parsed nothing yet.
    pub fn new(library: Library) -> (a: Assembler)
        ensures
            a.wf(),
            a.library_spec() == library.modules@,
            a.parsed() == ModuleMap::empty(),
    {
        let a = Assembler { library, parsed_modules: ModuleCache::new() };
        proof {
            lemma_empty_cache_sound(a.library_spec());
        }
        a
    }

    /// Checks a script's structure and resolves its imports. `imports` are the paths of the
    /// script's `use` instructions, in order; `heads` are the first parts of its leading tokens:
    /// one per `use`, one per procedure header, then the token that should begin the body.
    /// `after_body` is the first part of the token that follows the script body (`None` when the
    /// source ends there), and `trailing` tells whether any token follows that one.
    ///
    /// The imports are resolved first, from the root of a fresh dependency chain; then the
    /// order of the leading tokens is checked; then the body must be closed by an `end` with
    /// nothing after it. Returns the imported procedures by label and the position of `begin`.
    pub fn compile_script(
        &mut self,
        imports: &Vec<String>,
        heads: &[&str],
        after_body: Option<&str>,
        trailing: bool,
    ) -> (r: Result<(Vec<Import>, usize), AssemblyError>)
        requires
            old(self).wf(),
            skip_imports(heads@.map_values(|h: &str| h@), 0) == imports@.len(),
        ensures
            final(self).wf(),
            final(self).library_spec() == old(self).library_spec(),
            imports_spec(
                old(self).library_spec(),
                old(self).parsed(),
                Seq::empty(),
                imports@.map_values(|s: String| s@),
                0,
            ).result == resolve_all_spec(
                old(self).library_spec(),
                Seq::empty(),
                imports@.map_values(|s: String| s@),
                0,
            ),
            ({
                let o = imports_spec(
                    old(self).library_spec(),
                    old(self).parsed(),
                    Seq::empty(),
                    imports@.map_values(|s: String| s@),
                    0,
                );
                &&& final(self).parsed() == o.cache
                &&& match o.result {
                    Err(e) => r matches Err(AssemblyError::Import(err)) && err.failure() == e,
                    Ok(l) => match layout_spec(heads@.map_values(|h: &str| h@)) {
                        Err((pos, why)) => r == Err::<(Vec<Import>, usize), AssemblyError>(
                            AssemblyError::Layout(pos, why),
                        ),
                        Ok(begin) => match end_spec(head_view(after_body), trailing) {
                            Err(why) => r == Err::<(Vec<Import>, usize), AssemblyError>(
                                AssemblyError::ScriptEnd(why),
                            ),
                            Ok(()) => r matches Ok((v, b)) && imports_view(v@) == l && b == begin,
                        },
                    },
                }
            }),
    {
        proof {
            lemma_sim_all(
                self.library_spec(),
                self.parsed(),
                Seq::empty(),
                imports@.map_values(|s: String| s@),
                0,
            );
        }
        let mut chain = DependencyChain::new();
        let imported = match self.parsed_modules.parse_imports(&self.library, &mut chain, imports) {
            Ok(v) => v,
            Err(e) => {
                return Err(AssemblyError::Import(e));
            },
        };
        let begin = match script_layout(heads) {
            Ok(begin) => begin,
            Err((pos, why)) => {
                return Err(AssemblyError::Layout(pos, why));
            },
        };
        match check_script_end(after_body, trailing) {
            Ok(()) => Ok((imported, begin)),
            Err(why) => Err(AssemblyError::ScriptEnd(why)),
        }
    }
}

} // verus!
