use miden_vm::assembly::{script_layout, DependencyChain, LayoutError};
use miden_vm::modules::{
    exported_procs, Assembler, AssemblyError, Import, ImportError, Library, LibraryModule, ModuleCache, ProcInfo,
};

fn proc_info(name: &str, exported: bool) -> ProcInfo {
    ProcInfo { name: name.to_string(), exported }
}

fn module(path: &str, imports: &[&str], procs: Vec<ProcInfo>, dangling: bool) -> LibraryModule {
    LibraryModule {
        path: path.to_string(),
        imports: imports.iter().map(|s| s.to_string()).collect(),
        procs,
        dangling,
    }
}

fn library() -> Library {
    Library {
        modules: vec![
            module(
                "std::math::u256",
                &["std::math::u64"],
                vec![proc_info("add", true), proc_info("helper", false), proc_info("sub", true)],
                false,
            ),
            module("std::math::u64", &[], vec![proc_info("mul", true)], false),
            module("std::loop::a", &["std::loop::b"], vec![proc_info("a", true)], false),
            module("std::loop::b", &["std::loop::a"], vec![proc_info("b", true)], false),
            module("std::broken", &[], vec![proc_info("x", true)], true),
            module("std::uses_missing", &["std::nowhere"], vec![], false),
        ],
    }
}

#[test]
fn import_parses_module_and_its_imports_once() {
    let lib = library();
    let mut cache = ModuleCache::new();
    let mut chain = DependencyChain::new();
    let procs = cache.import(&lib, &mut chain, "std::math::u256").unwrap();
    assert_eq!(vec![proc_info("add", true), proc_info("sub", true)], procs);
    assert!(!chain.contains("std::math::u256"));
    assert!(cache.contains("std::math::u256"));
    assert!(cache.contains("std::math::u64"));
    assert_eq!(Some(vec![proc_info("mul", true)]), cache.get("std::math::u64"));
    // a second import comes from the cache
    let again = cache.import(&lib, &mut chain, "std::math::u256").unwrap();
    assert_eq!(procs, again);
}

#[test]
fn parse_imports_labels_by_last_path_part() {
    let lib = library();
    let mut cache = ModuleCache::new();
    let mut chain = DependencyChain::new();
    let paths = vec!["std::math::u64".to_string(), "std::math::u256".to_string()];
    let imports = cache.parse_imports(&lib, &mut chain, &paths).unwrap();
    assert_eq!(
        vec![
            Import { label: "u64".to_string(), procs: vec![proc_info("mul", true)] },
            Import {
                label: "u256".to_string(),
                procs: vec![proc_info("add", true), proc_info("sub", true)],
            },
        ],
        imports
    );
}

#[test]
fn circular_import_reports_the_cycle() {
    let lib = library();
    let mut cache = ModuleCache::new();
    let mut chain = DependencyChain::new();
    let r = cache.import(&lib, &mut chain, "std::loop::a");
    assert_eq!(
        Err(ImportError::CircularModuleDependency(vec![
            "std::loop::a".to_string(),
            "std::loop::b".to_string(),
            "std::loop::a".to_string(),
        ])),
        r
    );
    assert!(!cache.contains("std::loop::a"));
    assert!(!cache.contains("std::loop::b"));
}

#[test]
fn missing_and_dangling_modules_fail() {
    let lib = library();
    let mut cache = ModuleCache::new();
    let mut chain = DependencyChain::new();
    assert_eq!(
        Err(ImportError::MissingImportSource("std::nowhere".to_string())),
        cache.import(&lib, &mut chain, "std::nowhere")
    );
    let mut chain = DependencyChain::new();
    assert_eq!(
        Err(ImportError::MissingImportSource("std::nowhere".to_string())),
        cache.import(&lib, &mut chain, "std::uses_missing")
    );
    let mut chain = DependencyChain::new();
    assert_eq!(
        Err(ImportError::DanglingOpsAfterModule("std::broken".to_string())),
        cache.import(&lib, &mut chain, "std::broken")
    );
    assert!(!cache.contains("std::broken"));
}

#[test]
fn parse_imports_stops_at_first_failure() {
    let lib = library();
    let mut cache = ModuleCache::new();
    let mut chain = DependencyChain::new();
    let paths = vec![
        "std::math::u64".to_string(),
        "std::nowhere".to_string(),
        "std::math::u256".to_string(),
    ];
    let r = cache.parse_imports(&lib, &mut chain, &paths);
    assert_eq!(Err(ImportError::MissingImportSource("std::nowhere".to_string())), r);
    assert!(cache.contains("std::math::u64"));
    assert!(!cache.contains("std::math::u256"));
}

#[test]
fn add_module_keeps_exported_procedures() {
    let mut cache = ModuleCache::new();
    let procs = vec![proc_info("a", false), proc_info("b", true)];
    assert_eq!(vec![proc_info("b", true)], exported_procs(&procs));
    assert_eq!(
        Err(ImportError::DanglingOpsAfterModule("m".to_string())),
        cache.add_module("m", &procs, true)
    );
    assert_eq!(None, cache.get("m"));
    assert_eq!(Ok(vec![proc_info("b", true)]), cache.add_module("m", &procs, false));
    assert_eq!(Some(vec![proc_info("b", true)]), cache.get("m"));
}

#[test]
fn script_layout_checks_token_order() {
    assert_eq!(Ok(3), script_layout(&["use", "proc", "export", "begin"]));
    assert_eq!(Ok(0), script_layout(&["begin"]));
    assert_eq!(Err((2, LayoutError::UnexpectedToken)), script_layout(&["use", "proc", "use", "begin"]));
    assert_eq!(Err((2, LayoutError::UnexpectedEof)), script_layout(&["use", "use"]));
    assert_eq!(Err((1, LayoutError::UnexpectedToken)), script_layout(&["proc", "end"]));
    assert_eq!(Err((0, LayoutError::UnexpectedEof)), script_layout(&[]));
}

#[test]
fn compile_script_resolves_imports_then_checks_layout() {
    let mut assembler = Assembler::new(library());
    let imports = vec!["std::math::u64".to_string()];
    let (imported, begin) =
        assembler.compile_script(&imports, &["use", "proc", "begin"], Some("end"), false).unwrap();
    assert_eq!(
        vec![Import { label: "u64".to_string(), procs: vec![proc_info("mul", true)] }],
        imported
    );
    assert_eq!(2, begin);
    assert_eq!(
        Err(AssemblyError::Layout(2, LayoutError::UnexpectedToken)),
        assembler.compile_script(&imports, &["use", "proc", "push"], Some("end"), false)
    );
    let missing = vec!["std::nowhere".to_string()];
    assert_eq!(
        Err(AssemblyError::Import(ImportError::MissingImportSource("std::nowhere".to_string()))),
        assembler.compile_script(&missing, &["use", "push"], Some("end"), false)
    );
}

#[test]
fn compile_script_checks_how_the_body_ends() {
    let mut assembler = Assembler::new(library());
    let imports: Vec<String> = vec![];
    assert_eq!(
        Err(AssemblyError::ScriptEnd(LayoutError::UnmatchedBegin)),
        assembler.compile_script(&imports, &["begin"], None, false)
    );
    assert_eq!(
        Err(AssemblyError::ScriptEnd(LayoutError::DanglingElse)),
        assembler.compile_script(&imports, &["begin"], Some("else"), false)
    );
    assert_eq!(
        Err(AssemblyError::ScriptEnd(LayoutError::DanglingOpsAfterScript)),
        assembler.compile_script(&imports, &["begin"], Some("end"), true)
    );
    assert_eq!(
        Err(AssemblyError::ScriptEnd(LayoutError::UnmatchedBegin)),
        assembler.compile_script(&imports, &["begin"], Some("push"), false)
    );
    assert_eq!(Ok((vec![], 0)), assembler.compile_script(&imports, &["begin"], Some("end"), false));
}

#[test]
fn compiling_twice_gives_the_same_result() {
    let mut assembler = Assembler::new(library());
    let imports = vec!["std::math::u256".to_string(), "std::math::u64".to_string()];
    let heads = ["use", "use", "begin"];
    let first = assembler.compile_script(&imports, &heads, Some("end"), false);
    let second = assembler.compile_script(&imports, &heads, Some("end"), false);
    assert!(first.is_ok());
    assert_eq!(first, second);
    let mut fresh = Assembler::new(library());
    assert_eq!(first, fresh.compile_script(&imports, &heads, Some("end"), false));
}
