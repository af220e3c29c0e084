use vstd::prelude::*;

use crate::assembly::last_part;
use crate::modules::{
    exported, find_from, import_paths, import_spec, imports_spec, lemma_find_from,
    lemma_imports_cache, lemma_unvisited_push, law_import_cache, module_spec, unvisited,
    ImportFailure, LibraryModule, ModuleMap, ProcInfo,
};

verus! {

// RESOLUTION WITHOUT A CACHE
// ================================================================================================

/// What importing `path` gives when every module is parsed afresh, with no cache: a module on
/// `chain` is a circular import; otherwise the module is looked up and its imports resolved
/// with it entered on the chain.
pub open spec fn resolve_spec(lib: Seq<LibraryModule>, chain: Seq<Seq<char>>, path: Seq<char>) -> Result<
    Seq<ProcInfo>,
    ImportFailure,
>
    decreases unvisited(lib, chain), 0nat, 0int,
{
    if chain.contains(path) {
        Err(ImportFailure::Circular(chain.push(path)))
    } else {
        match find_from(lib, path, 0) {
            None => Err(ImportFailure::Missing(path)),
            Some(k) => {
                proof {
                    lemma_find_from(lib, path, 0);
                    lemma_unvisited_push(lib, chain, k);
                }
                resolve_module_spec(lib, chain.push(path), k)
            },
        }
    }
}

/// Resolving library module `k`, entered on `chain`, with no cache.
pub open spec fn resolve_module_spec(lib: Seq<LibraryModule>, chain: Seq<Seq<char>>, k: int) -> Result<
    Seq<ProcInfo>,
    ImportFailure,
>
    decreases unvisited(lib, chain), 2nat, 0int,
{
    let m = lib[k];
    match resolve_all_spec(lib, chain, import_paths(m), 0) {
        Err(e) => Err(e),
        Ok(_) => if m.dangling {
            Err(ImportFailure::Dangling(m.path@))
        } else {
            Ok(exported(m.procs@))
        },
    }
}

/// Resolving `paths[i..]` in order with no cache, stopping at the first failure.
pub open spec fn resolve_all_spec(
    lib: Seq<LibraryModule>,
    chain: Seq<Seq<char>>,
    paths: Seq<Seq<char>>,
    i: int,
) -> Result<Seq<(Seq<char>, Seq<ProcInfo>)>, ImportFailure>
    decreases unvisited(lib, chain), 1nat, paths.len() - i,
{
    if i < 0 || i >= paths.len() {
        Ok(seq![])
    } else {
        match resolve_spec(lib, chain, paths[i]) {
            Err(e) => Err(e),
            Ok(procs) => match resolve_all_spec(lib, chain, paths, i + 1) {
                Ok(l) => Ok(seq![(last_part(paths[i]), procs)] + l),
                Err(e) => Err(e),
            },
        }
    }
}

// SOUND CACHES
// ================================================================================================

/// No module on `chain` is in `s`.
pub open spec fn chain_avoids(chain: Seq<Seq<char>>, s: Set<Seq<char>>) -> bool {
    forall|i: int| 0 <= i < chain.len() ==> !s.contains(#[trigger] chain[i])
}

/// `sup` gives each cached module a support: a set of cached modules, itself among them, such
/// that resolving the module afresh, from any chain that avoids the support, gives what the
/// cache holds for it.
pub open spec fn supports(
    lib: Seq<LibraryModule>,
    cache: ModuleMap,
    sup: Map<Seq<char>, Set<Seq<char>>>,
) -> bool {
    forall|q: Seq<char>|
        #[trigger] cache.contains_key(q) ==> {
            &&& sup.contains_key(q)
            &&& sup[q].subset_of(cache.dom())
            &&& sup[q].contains(q)
            &&& forall|ch: Seq<Seq<char>>|
                chain_avoids(ch, sup[q]) ==> #[trigger] resolve_spec(lib, ch, q) == Ok::<
                    Seq<ProcInfo>,
                    ImportFailure,
                >(cache[q])
        }
}

/// A cache that holds nothing but what fresh resolution gives: every cache that imports build
/// from an empty one is sound.
pub open spec fn sound_cache(lib: Seq<LibraryModule>, cache: ModuleMap) -> bool {
    exists|sup: Map<Seq<char>, Set<Seq<char>>>| supports(lib, cache, sup)
}

/// The empty cache is sound.
pub proof fn lemma_empty_cache_sound(lib: Seq<LibraryModule>)
    ensures
        sound_cache(lib, ModuleMap::empty()),
{
    assert(supports(lib, ModuleMap::empty(), Map::empty()));
}

proof fn lemma_all_ok(lib: Seq<LibraryModule>, chain: Seq<Seq<char>>, paths: Seq<Seq<char>>, i: int)
    requires
        forall|j: int| i <= j < paths.len() ==> (#[trigger] resolve_spec(lib, chain, paths[j])) is Ok,
    ensures
        resolve_all_spec(lib, chain, paths, i) is Ok,
    decreases paths.len() - i,
{
    if 0 <= i < paths.len() {
        assert(resolve_spec(lib, chain, paths[i]) is Ok);
        lemma_all_ok(lib, chain, paths, i + 1);
    }
}

proof fn lemma_avoid_grown(
    chain: Seq<Seq<char>>,
    before: ModuleMap,
    after: ModuleMap,
)
    requires
        chain_avoids(chain, before.dom()),
        forall|q: Seq<char>|
            #[trigger] after.contains_key(q) && !before.contains_key(q) ==> !chain.contains(q),
    ensures
        chain_avoids(chain, after.dom()),
{
    assert forall|i: int| 0 <= i < chain.len() implies !after.dom().contains(#[trigger] chain[i]) by {
        assert(chain.contains(chain[i]));
        assert(!before.dom().contains(chain[i]));
    }
}

/// An import from a sound cache, with a chain that holds no cached module, gives what fresh
/// resolution gives, and leaves a sound cache.
pub proof fn lemma_sim_import(lib: Seq<LibraryModule>, c: ModuleMap, ch: Seq<Seq<char>>, p: Seq<char>)
    requires
        sound_cache(lib, c),
        chain_avoids(ch, c.dom()),
    ensures
        import_spec(lib, c, ch, p).result == resolve_spec(lib, ch, p),
        sound_cache(lib, import_spec(lib, c, ch, p).cache),
    decreases unvisited(lib, ch), 0nat, 0int,
{
    if ch.contains(p) {
    } else if c.contains_key(p) {
        let sup = choose|sup: Map<Seq<char>, Set<Seq<char>>>| supports(lib, c, sup);
        assert(sup[p].subset_of(c.dom()));
        assert(chain_avoids(ch, sup[p])) by {
            assert forall|i: int| 0 <= i < ch.len() implies !sup[p].contains(#[trigger] ch[i]) by {
                assert(!c.dom().contains(ch[i]));
            }
        }
        assert(resolve_spec(lib, ch, p) == Ok::<Seq<ProcInfo>, ImportFailure>(c[p]));
    } else {
        lemma_find_from(lib, p, 0);
        if let Some(k) = find_from(lib, p, 0) {
            lemma_unvisited_push(lib, ch, k);
            let entered = ch.push(p);
            assert(chain_avoids(entered, c.dom())) by {
                assert forall|i: int| 0 <= i < entered.len() implies !c.dom().contains(
                    #[trigger] entered[i],
                ) by {
                    if i < ch.len() {
                        assert(entered[i] == ch[i]);
                    }
                }
            }
            lemma_sim_module(lib, c, entered, k);
        }
    }
}

/// Parsing a module from a sound cache, with a chain that holds no cached module and ends with
/// the module, gives what fresh resolution gives, and leaves a sound cache.
pub proof fn lemma_sim_module(lib: Seq<LibraryModule>, c: ModuleMap, ch: Seq<Seq<char>>, k: int)
    requires
        sound_cache(lib, c),
        chain_avoids(ch, c.dom()),
        0 <= k < lib.len(),
        find_from(lib, lib[k].path@, 0) == Some(k),
        ch.len() > 0,
        ch.last() == lib[k].path@,
    ensures
        module_spec(lib, c, ch, k).result == resolve_module_spec(lib, ch, k),
        sound_cache(lib, module_spec(lib, c, ch, k).cache),
    decreases unvisited(lib, ch), 2nat, 0int,
{
    let p = lib[k].path@;
    let ps = import_paths(lib[k]);
    lemma_sim_all(lib, c, ch, ps, 0);
    lemma_imports_cache(lib, c, ch, ps, 0);
    let imp = imports_spec(lib, c, ch, ps, 0);
    if imp.result is Ok && !lib[k].dangling {
        assert(ch.contains(p)) by {
            assert(ch[ch.len() - 1] == p);
        }
        assert(!c.contains_key(p)) by {
            assert(!c.dom().contains(ch[ch.len() - 1]));
        }
        assert(!imp.cache.contains_key(p));
        let sup = choose|sup: Map<Seq<char>, Set<Seq<char>>>| supports(lib, imp.cache, sup);
        let d = imp.cache.dom();
        let sup2 = sup.insert(p, d.insert(p));
        let procs = exported(lib[k].procs@);
        let c2 = imp.cache.insert(p, procs);
        assert(module_spec(lib, c, ch, k).cache == c2);
        assert forall|q: Seq<char>| #[trigger] c2.contains_key(q) implies {
            &&& sup2.contains_key(q)
            &&& sup2[q].subset_of(c2.dom())
            &&& sup2[q].contains(q)
            &&& forall|ch2: Seq<Seq<char>>|
                chain_avoids(ch2, sup2[q]) ==> #[trigger] resolve_spec(lib, ch2, q) == Ok::<
                    Seq<ProcInfo>,
                    ImportFailure,
                >(c2[q])
        } by {
            if q == p {
                assert forall|ch2: Seq<Seq<char>>| chain_avoids(ch2, sup2[q]) implies #[trigger] resolve_spec(
                    lib,
                    ch2,
                    q,
                ) == Ok::<Seq<ProcInfo>, ImportFailure>(c2[q]) by {
                    assert(!ch2.contains(p)) by {
                        if ch2.contains(p) {
                            let i = choose|i: int| 0 <= i < ch2.len() && ch2[i] == p;
                            assert(!sup2[q].contains(ch2[i]));
                        }
                    }
                    lemma_unvisited_push(lib, ch2, k);
                    let e2 = ch2.push(p);
                    assert forall|j: int| 0 <= j < ps.len() implies (#[trigger] resolve_spec(
                        lib,
                        e2,
                        ps[j],
                    )) is Ok by {
                        let r = ps[j];
                        assert(imp.cache.contains_key(r));
                        assert(sup[r].subset_of(d));
                        assert(chain_avoids(e2, sup[r])) by {
                            assert forall|i: int| 0 <= i < e2.len() implies !sup[r].contains(
                                #[trigger] e2[i],
                            ) by {
                                if i < ch2.len() {
                                    assert(e2[i] == ch2[i]);
                                    assert(!sup2[q].contains(ch2[i]));
                                } else {
                                    assert(e2[i] == p);
                                }
                            }
                        }
                        assert(resolve_spec(lib, e2, r) == Ok::<Seq<ProcInfo>, ImportFailure>(
                            imp.cache[r],
                        ));
                    }
                    lemma_all_ok(lib, e2, ps, 0);
                    assert(resolve_module_spec(lib, e2, k) == Ok::<Seq<ProcInfo>, ImportFailure>(
                        procs,
                    ));
                }
            } else {
                assert(imp.cache.contains_key(q));
                assert(sup2[q] == sup[q]);
                assert(c2[q] == imp.cache[q]);
            }
        }
        assert(supports(lib, c2, sup2));
    }
}

/// A list of imports from a sound cache, with a chain that holds no cached module, gives what
/// fresh resolution gives, leaves a sound cache, and on success leaves every imported module
/// cached.
pub proof fn lemma_sim_all(
    lib: Seq<LibraryModule>,
    c: ModuleMap,
    ch: Seq<Seq<char>>,
    ps: Seq<Seq<char>>,
    i: int,
)
    requires
        sound_cache(lib, c),
        chain_avoids(ch, c.dom()),
        0 <= i,
    ensures
        imports_spec(lib, c, ch, ps, i).result == resolve_all_spec(lib, ch, ps, i),
        sound_cache(lib, imports_spec(lib, c, ch, ps, i).cache),
        imports_spec(lib, c, ch, ps, i).result is Ok ==> forall|j: int|
            i <= j < ps.len() ==> #[trigger] imports_spec(lib, c, ch, ps, i).cache.contains_key(ps[j]),
    decreases unvisited(lib, ch), 1nat, ps.len() - i,
{
    if 0 <= i < ps.len() {
        lemma_sim_import(lib, c, ch, ps[i]);
        law_import_cache(lib, c, ch, ps[i]);
        let first = import_spec(lib, c, ch, ps[i]);
        if first.result is Ok {
            lemma_avoid_grown(ch, c, first.cache);
            lemma_sim_all(lib, first.cache, ch, ps, i + 1);
            lemma_imports_cache(lib, first.cache, ch, ps, i + 1);
            let rest = imports_spec(lib, first.cache, ch, ps, i + 1);
            let o = imports_spec(lib, c, ch, ps, i);
            assert(o.cache == rest.cache);
            if o.result is Ok {
                assert forall|j: int| i <= j < ps.len() implies #[trigger] o.cache.contains_key(ps[j]) by {
                    if j == i {
                        assert(first.cache.contains_key(ps[i]));
                    } else {
                        assert(rest.cache.contains_key(ps[j]));
                    }
                }
            }
        }
    }
}

/// The cache never changes what importing gives: from any sound cache, such as every cache that
/// earlier imports left, a list of imports gives what it gives from an empty cache.
pub proof fn law_cache_never_changes_result(
    lib: Seq<LibraryModule>,
    cache: ModuleMap,
    paths: Seq<Seq<char>>,
)
    requires
        sound_cache(lib, cache),
    ensures
        imports_spec(lib, cache, Seq::empty(), paths, 0).result == imports_spec(
            lib,
            ModuleMap::empty(),
            Seq::empty(),
            paths,
            0,
        ).result,
        imports_spec(lib, cache, Seq::empty(), paths, 0).result == resolve_all_spec(
            lib,
            Seq::empty(),
            paths,
            0,
        ),
{
    lemma_empty_cache_sound(lib);
    lemma_sim_all(lib, cache, Seq::empty(), paths, 0);
    lemma_sim_all(lib, ModuleMap::empty(), Seq::empty(), paths, 0);
}

} // verus!
