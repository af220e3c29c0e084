use miden_vm::assembly::{
    check_script_begin, check_script_end, keyword, module_label, DependencyChain, Keyword,
    LayoutError,
};

#[test]
fn module_label_is_last_path_part() {
    assert_eq!("u256", module_label("std::math::u256"));
    assert_eq!("u256", module_label("u256"));
    assert_eq!("", module_label("std::math::"));
    assert_eq!("", module_label("::"));
    assert_eq!("", module_label(""));
    assert_eq!(":b", module_label("a:::b"));
    assert_eq!("b:", module_label("a::b:"));
}

#[test]
fn dependency_chain_catches_cycles() {
    let mut chain = DependencyChain::new();
    assert!(chain.enter("std::a").is_ok());
    assert!(chain.enter("std::b").is_ok());
    assert!(chain.contains("std::a"));
    let cycle = chain.enter("std::a").unwrap_err();
    assert_eq!(vec!["std::a".to_string(), "std::b".to_string(), "std::a".to_string()], cycle);
    // the refused module stays on the chain, as the cycle shows
    chain.leave();
    assert!(chain.contains("std::b"));
    chain.leave();
    assert!(!chain.contains("std::b"));
    chain.leave();
    assert!(!chain.contains("std::a"));
    assert!(chain.enter("std::a").is_ok());
}

#[test]
fn keywords_are_classified() {
    assert_eq!(Keyword::Use, keyword("use"));
    assert_eq!(Keyword::Proc, keyword("proc"));
    assert_eq!(Keyword::Export, keyword("export"));
    assert_eq!(Keyword::Begin, keyword("begin"));
    assert_eq!(Keyword::End, keyword("end"));
    assert_eq!(Keyword::Else, keyword("else"));
    assert_eq!(Keyword::Other, keyword("push"));
    assert_eq!(Keyword::Other, keyword("Begin"));
}

#[test]
fn script_layout_errors() {
    assert_eq!(Ok(()), check_script_begin(Some("begin")));
    assert_eq!(Err(LayoutError::UnexpectedEof), check_script_begin(None));
    assert_eq!(Err(LayoutError::UnexpectedToken), check_script_begin(Some("push")));

    assert_eq!(Ok(()), check_script_end(Some("end"), false));
    assert_eq!(Err(LayoutError::DanglingOpsAfterScript), check_script_end(Some("end"), true));
    assert_eq!(Err(LayoutError::DanglingElse), check_script_end(Some("else"), false));
    assert_eq!(Err(LayoutError::UnmatchedBegin), check_script_end(Some("push"), false));
    assert_eq!(Err(LayoutError::UnmatchedBegin), check_script_end(None, false));
}
