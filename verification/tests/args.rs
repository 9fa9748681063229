use parex::args::{AppendArgs, ArgBuilder, ArgBuilderMaker, ArgBuilderType, DynArgBuilderMaker, TemplateArgs};

#[test]
fn append_args_works() {
    let mut builder = AppendArgs {
        initial_args: vec!["initial".into()],
        args: vec![],
        max_args: 2,
        min_args: 1,
    };
    builder.push_arg("foo");
    assert!(builder.push_arg("bar"));
    assert_eq!(builder.arg_list(), ["initial", "foo", "bar"]);
}

#[test]
fn append_args_min_works() {
    let mut builder = AppendArgs {
        initial_args: vec!["initial".into()],
        args: vec![],
        max_args: 2,
        min_args: 1,
    };
    assert!(!builder.push_arg("foo"));
    assert!(builder.viable());
    assert_eq!(builder.arg_list(), ["initial", "foo"]);
}

#[test]
fn template_args_works() {
    let mut builder =
        TemplateArgs::new(vec!["initial".into(), "{0}".into(), "{1}".into()]).unwrap();
    builder.push_arg("foo");
    assert!(builder.push_arg("bar"));
    assert_eq!(builder.arg_list(), ["initial", "foo", "bar"]);
}

#[test]
fn append_arg_list_tracks_every_push() {
    let mut builder = AppendArgs {
        initial_args: vec!["cmd".into(), "-v".into()],
        args: vec![],
        max_args: 3,
        min_args: 1,
    };
    assert_eq!(builder.arg_list(), ["cmd", "-v"]);
    builder.push_arg("a");
    assert_eq!(builder.arg_list(), ["cmd", "-v", "a"]);
    builder.push_arg("b");
    assert_eq!(builder.arg_list(), ["cmd", "-v", "a", "b"]);
    assert!(builder.push_arg("c"));
    assert_eq!(builder.arg_list(), ["cmd", "-v", "a", "b", "c"]);
}

#[test]
fn append_not_viable_under_min() {
    let mut builder = AppendArgs {
        initial_args: vec![],
        args: vec![],
        max_args: 3,
        min_args: 2,
    };
    assert!(!builder.push_arg("x"));
    assert!(!builder.viable());
}

#[test]
fn template_fallback_malformed_uses_own_position() {
    let mut builder = TemplateArgs::new(vec!["a}{b".into()]).unwrap();
    assert!(!builder.viable());
    assert!(builder.push_arg("v"));
    assert_eq!(builder.arg_list(), ["v"]);
}

#[test]
fn template_empty_braces_fall_back() {
    let mut builder = TemplateArgs::new(vec!["keep".into(), "{}".into()]).unwrap();
    assert!(!builder.push_arg("zero"));
    assert!(builder.push_arg("one"));
    assert_eq!(builder.arg_list(), ["keep", "one"]);
}

#[test]
fn template_non_numeric_index_falls_back() {
    // "{x}" falls back to its own position 0, so both slots reference
    // input 0 and the first push fills them both.
    let mut builder = TemplateArgs::new(vec!["{x}".into(), "{0}".into()]).unwrap();
    assert!(builder.push_arg("first"));
    assert_eq!(builder.arg_list(), ["first", "first"]);
}

#[test]
fn template_plus_prefixed_index_is_accepted() {
    let mut builder = TemplateArgs::new(vec!["{+1}".into(), "{0}".into()]).unwrap();
    assert!(!builder.push_arg("zero"));
    assert!(builder.push_arg("one"));
    assert_eq!(builder.arg_list(), ["one", "zero"]);
}

#[test]
fn template_overflowing_index_falls_back() {
    let mut builder = TemplateArgs::new(vec!["{99999999999999999999999999}".into()]).unwrap();
    assert!(builder.push_arg("v"));
    assert_eq!(builder.arg_list(), ["v"]);
}

#[test]
fn template_broadcast_fills_every_matching_slot() {
    let mut builder = TemplateArgs::new(vec!["{0}".into(), "mid".into(), "{0}".into()]).unwrap();
    assert!(builder.push_arg("x"));
    assert_eq!(builder.arg_list(), ["x", "mid", "x"]);
}

#[test]
fn template_skipped_index_consumes_input() {
    let mut builder = TemplateArgs::new(vec!["{1}".into()]).unwrap();
    assert!(!builder.push_arg("dropped"));
    assert!(builder.push_arg("kept"));
    assert_eq!(builder.arg_list(), ["kept"]);
}

#[test]
fn template_only_first_brace_pair_counts() {
    let mut builder = TemplateArgs::new(vec!["{1}{0}".into(), "lit".into()]).unwrap();
    assert!(!builder.push_arg("zero"));
    assert!(builder.push_arg("one"));
    assert_eq!(builder.arg_list(), ["one", "lit"]);
}

#[test]
fn template_without_placeholders_is_viable_at_once() {
    let builder = TemplateArgs::new(vec!["a".into(), "b".into()]).unwrap();
    assert!(builder.viable());
    assert_eq!(builder.arg_list(), ["a", "b"]);
}

#[test]
fn maker_builds_fresh_append_builders() {
    let maker = DynArgBuilderMaker {
        is_template: false,
        initial_args: vec!["pre".into()],
        max_args: 1,
        min_args: 1,
    };
    let mut first = maker.make();
    assert!(first.push_arg("a"));
    assert_eq!(first.arg_list(), ["pre", "a"]);
    let mut second = maker.make();
    assert!(!second.viable());
    assert!(second.push_arg("b"));
    assert_eq!(second.arg_list(), ["pre", "b"]);
}

#[test]
fn maker_builds_template_builders() {
    let maker = DynArgBuilderMaker {
        is_template: true,
        initial_args: vec!["run".into(), "{0}".into()],
        max_args: 1,
        min_args: 1,
    };
    let mut builder: ArgBuilderType = maker.make();
    assert!(!builder.viable());
    assert!(builder.push_arg("v"));
    assert_eq!(builder.arg_list(), ["run", "v"]);
}
