use darklua_core::require::{
    FunctionCall, ModulePath, NameRequireMode, PathRequireMode, RequireArgument, RequireMode,
    RequirePathLocatorMode,
};

fn mp(parts: &[&str]) -> ModulePath {
    ModulePath::new(parts.iter().map(|s| s.to_string()).collect())
}

fn literal_call(text: &str) -> FunctionCall {
    FunctionCall::new(RequireArgument::Literal(text.to_string()))
}

fn computed_call() -> FunctionCall {
    FunctionCall::new(RequireArgument::Computed)
}

// ---------------------------------------------------------------------------
// The path-literal strategy
// ---------------------------------------------------------------------------

#[test]
fn path_mode_reports_its_folder_name() {
    let mode = PathRequireMode::new("init.lua".to_string());
    assert_eq!(mode.module_folder_name(), "init.lua");
}

#[test]
fn path_mode_resolves_a_relative_file_path() {
    let mode = PathRequireMode::new("init.lua".to_string());
    let source = mp(&["src", "a", "b.lua"]);
    let call = literal_call("../x/mod.lua");

    let found = mode.match_path_require_call(&call, &source);

    assert_eq!(found, Some(mp(&["src", "x", "mod.lua"])));
}

#[test]
fn path_mode_applies_the_folder_convention() {
    let mode = PathRequireMode::new("init.lua".to_string());
    let source = mp(&["src", "a.lua"]);
    let call = literal_call("./x");

    let found = mode.match_path_require_call(&call, &source);

    assert_eq!(found, Some(mp(&["src", "x", "init.lua"])));
}

#[test]
fn path_mode_leaves_computed_arguments_alone() {
    let mode = PathRequireMode::new("init.lua".to_string());
    let source = mp(&["src", "a.lua"]);

    assert_eq!(mode.match_path_require_call(&computed_call(), &source), None);
    assert_eq!(
        mode.rewrite_require_call(&computed_call(), &source, &mp(&["src", "x.lua"])),
        None
    );
}

#[test]
fn path_mode_rejects_escaping_the_root() {
    let mode = PathRequireMode::new("init.lua".to_string());
    let source = mp(&["a", "b.lua"]);
    let call = literal_call("../../x.lua");

    assert_eq!(mode.match_path_require_call(&call, &source), None);
}

#[test]
fn path_mode_rejects_empty_components() {
    let mode = PathRequireMode::new("init.lua".to_string());
    let source = mp(&["a", "b.lua"]);
    let call = literal_call("x//y.lua");

    assert_eq!(mode.match_path_require_call(&call, &source), None);
}

#[test]
fn path_mode_rewrites_to_a_file_target() {
    let mode = PathRequireMode::new("init.lua".to_string());
    let source = mp(&["src", "a", "b.lua"]);
    let target = mp(&["src", "x", "mod.lua"]);
    let call = literal_call("./old.lua");

    let rewritten = mode
        .rewrite_require_call(&call, &source, &target)
        .expect("the target is addressable");

    assert_eq!(
        rewritten,
        FunctionCall::new(RequireArgument::Literal("../x/mod.lua".to_string()))
    );
    let resolved = mode.match_path_require_call(&rewritten, &source);
    assert_eq!(resolved, Some(target));
}

#[test]
fn path_mode_rewrites_to_a_directory_target() {
    let mode = PathRequireMode::new("init.lua".to_string());
    let source = mp(&["src", "a", "b.lua"]);
    let target = mp(&["src", "x", "init.lua"]);
    let call = literal_call("./old.lua");

    let rewritten = mode
        .rewrite_require_call(&call, &source, &target)
        .expect("the target is addressable");

    assert_eq!(
        rewritten,
        FunctionCall::new(RequireArgument::Literal("../x".to_string()))
    );
    let resolved = mode.match_path_require_call(&rewritten, &source);
    assert_eq!(resolved, Some(target));
}

#[test]
fn path_mode_cannot_rewrite_to_an_extensionless_target() {
    let mode = PathRequireMode::new("init.lua".to_string());
    let source = mp(&["src", "a.lua"]);
    let target = mp(&["src", "x"]);
    let call = literal_call("./old.lua");

    assert_eq!(mode.rewrite_require_call(&call, &source, &target), None);
}

// ---------------------------------------------------------------------------
// The module-name strategy
// ---------------------------------------------------------------------------

#[test]
fn name_mode_resolves_a_bare_name() {
    let mode = NameRequireMode::new(mp(&["libs"]), "init.lua".to_string());
    let source = mp(&["src", "a.lua"]);
    let call = literal_call("foo");

    let found = mode.match_path_require_call(&call, &source);

    assert_eq!(found, Some(mp(&["libs", "foo", "init.lua"])));
}

#[test]
fn name_mode_rejects_path_shaped_arguments() {
    let mode = NameRequireMode::new(mp(&["libs"]), "init.lua".to_string());
    let source = mp(&["src", "a.lua"]);

    assert_eq!(mode.match_path_require_call(&literal_call("a/b"), &source), None);
    assert_eq!(mode.match_path_require_call(&literal_call(""), &source), None);
    assert_eq!(mode.match_path_require_call(&literal_call(".."), &source), None);
    assert_eq!(mode.match_path_require_call(&computed_call(), &source), None);
}

#[test]
fn name_mode_rewrites_and_resolves_back() {
    let mode = NameRequireMode::new(mp(&["libs"]), "init.lua".to_string());
    let source = mp(&["src", "a.lua"]);
    let target = mp(&["libs", "bar", "init.lua"]);
    let call = literal_call("foo");

    let rewritten = mode
        .rewrite_require_call(&call, &source, &target)
        .expect("the target is addressable");

    assert_eq!(
        rewritten,
        FunctionCall::new(RequireArgument::Literal("bar".to_string()))
    );
    let resolved = mode.match_path_require_call(&rewritten, &source);
    assert_eq!(resolved, Some(target));
}

#[test]
fn name_mode_cannot_rewrite_outside_its_root() {
    let mode = NameRequireMode::new(mp(&["libs"]), "init.lua".to_string());
    let source = mp(&["src", "a.lua"]);
    let call = literal_call("foo");

    assert_eq!(
        mode.rewrite_require_call(&call, &source, &mp(&["other", "bar", "init.lua"])),
        None
    );
    assert_eq!(
        mode.rewrite_require_call(&call, &source, &mp(&["libs", "bar", "mod.lua"])),
        None
    );
}

#[test]
fn configured_mode_dispatches_to_its_strategy() {
    let source = mp(&["src", "a.lua"]);

    let path_mode = RequireMode::Path(PathRequireMode::new("init.lua".to_string()));
    assert_eq!(path_mode.module_folder_name(), "init.lua");
    assert_eq!(
        path_mode.match_path_require_call(&literal_call("./x"), &source),
        Some(mp(&["src", "x", "init.lua"]))
    );

    let name_mode = RequireMode::Name(NameRequireMode::new(mp(&["libs"]), "init.lua".to_string()));
    assert_eq!(
        name_mode.match_path_require_call(&literal_call("foo"), &source),
        Some(mp(&["libs", "foo", "init.lua"]))
    );
    assert_eq!(name_mode.match_path_require_call(&computed_call(), &source), None);
}

#[test]
fn module_path_exposes_its_components() {
    let p = mp(&["src", "a.lua"]);
    assert_eq!(p.components().len(), 2);
    assert_eq!(p.components()[0], "src");
    assert_eq!(p.components()[1], "a.lua");
}
