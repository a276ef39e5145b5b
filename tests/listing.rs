use forge_remappings::{
    compare_contexts, compare_text, context_order, render_flat, render_pretty, Remapping,
    RemappingArgs,
};

fn rm(context: Option<&str>, name: &str, path: &str) -> Remapping {
    Remapping::new(context.map(|c| c.to_string()), name.to_string(), path.to_string())
}

fn args(pretty: bool) -> RemappingArgs {
    RemappingArgs { root: None, pretty }
}

#[test]
fn flat_global_pair() {
    let rs = vec![rm(None, "a/", "lib/a/"), rm(None, "b/", "lib/b/")];
    assert_eq!(args(false).run(&rs), "a/=lib/a/\nb/=lib/b/\n");
}

#[test]
fn pretty_global_pair() {
    let rs = vec![rm(None, "a/", "lib/a/"), rm(None, "b/", "lib/b/")];
    assert_eq!(args(true).run(&rs), "Global:\n- a/=lib/a/\n- b/=lib/b/\n\n");
}

#[test]
fn pretty_global_before_context() {
    let rs = vec![rm(Some("test"), "c/", "lib/c/"), rm(None, "a/", "lib/a/")];
    assert_eq!(
        args(true).run(&rs),
        "Global:\n- a/=lib/a/\n\nContext: test\n- c/=lib/c/\n\n"
    );
}

#[test]
fn empty_input_either_mode() {
    let rs: Vec<Remapping> = Vec::new();
    assert_eq!(args(false).run(&rs), "");
    assert_eq!(args(true).run(&rs), "");
}

#[test]
fn same_context_keeps_input_order() {
    let rs = vec![
        rm(Some("src"), "z/", "lib/z/"),
        rm(None, "g/", "lib/g/"),
        rm(Some("src"), "a/", "lib/a/"),
    ];
    assert_eq!(
        args(true).run(&rs),
        "Global:\n- g/=lib/g/\n\nContext: src\n- z/=lib/z/\n- a/=lib/a/\n\n"
    );
}

#[test]
fn flat_shows_contexts_in_input_order() {
    let rs = vec![
        rm(Some("test"), "c/", "lib/c/"),
        rm(None, "a/", "lib/a/"),
        rm(Some("src"), "b/", "lib/b/"),
    ];
    assert_eq!(
        render_flat(&rs),
        "test:c/=lib/c/\na/=lib/a/\nsrc:b/=lib/b/\n"
    );
}

#[test]
fn contexts_in_ascending_order() {
    let rs = vec![
        rm(Some("zeta"), "a/", "lib/a/"),
        rm(Some("alpha"), "b/", "lib/b/"),
        rm(Some("zeta"), "c/", "lib/c/"),
        rm(None, "d/", "lib/d/"),
        rm(Some("alp"), "e/", "lib/e/"),
    ];
    let ks = context_order(&rs);
    assert_eq!(
        ks,
        vec![
            None,
            Some("alp".to_string()),
            Some("alpha".to_string()),
            Some("zeta".to_string())
        ]
    );
    assert_eq!(
        render_pretty(&rs),
        "Global:\n- d/=lib/d/\n\nContext: alp\n- e/=lib/e/\n\nContext: alpha\n- b/=lib/b/\n\n\
         Context: zeta\n- a/=lib/a/\n- c/=lib/c/\n\n"
    );
}

#[test]
fn every_remapping_listed_once() {
    let rs = vec![
        rm(Some("x"), "a/", "lib/a/"),
        rm(None, "a/", "lib/a/"),
        rm(Some("x"), "a/", "lib/a/"),
    ];
    let out = render_pretty(&rs);
    assert_eq!(out.matches("- a/=lib/a/\n").count(), 3);
    assert_eq!(out.matches("Context: x\n").count(), 1);
    assert_eq!(out.matches("Global:\n").count(), 1);
    assert_eq!(render_flat(&rs).lines().count(), 3);
}

#[test]
fn pretty_body_omits_context() {
    let rs = vec![rm(Some("test"), "c/", "lib/c/")];
    let out = render_pretty(&rs);
    assert!(!out.contains("test:"));
    assert_eq!(out, "Context: test\n- c/=lib/c/\n\n");
}

#[test]
fn same_input_same_output() {
    let rs = vec![rm(Some("b"), "x/", "lib/x/"), rm(Some("a"), "y/", "lib/y/")];
    let again = rs.clone();
    assert_eq!(render_pretty(&rs), render_pretty(&again));
    assert_eq!(render_flat(&rs), render_flat(&again));
}

#[test]
fn text_adds_trailing_slash() {
    assert_eq!(rm(None, "a", "lib/a").text(), "a=lib/a/");
    assert_eq!(rm(Some("ctx"), "a/", "lib/a/").text(), "ctx:a/=lib/a/");
    assert_eq!(rm(Some("ctx"), "a/", "lib/a/").bare_text(), "a/=lib/a/");
    assert_eq!(rm(None, "x.sol", "src/x.sol").text(), "x.sol=src/x.sol");
}

#[test]
fn text_comparison() {
    assert!(compare_text("abc", "abd") < 0);
    assert!(compare_text("abd", "abc") > 0);
    assert_eq!(compare_text("abc", "abc"), 0);
    assert!(compare_text("ab", "abc") < 0);
    assert!(compare_text("", "a") < 0);
    assert!(compare_text("B", "a") < 0);
    assert!(compare_text("é", "z") > 0);
}

#[test]
fn context_comparison() {
    let none: Option<String> = None;
    let a = Some("a".to_string());
    let b = Some("b".to_string());
    assert!(compare_contexts(&none, &a) < 0);
    assert!(compare_contexts(&a, &none) > 0);
    assert_eq!(compare_contexts(&none, &none), 0);
    assert!(compare_contexts(&a, &b) < 0);
    assert_eq!(compare_contexts(&b, &b), 0);
}
