//! Tests of `scheduling`.
use leaf_codegen::scheduling::{
    emit_cacheable, emit_catalog, emit_resource, emit_scheduled, parse_cache_args, parse_catalog_args,
    parse_schedule, ScheduleSpec,
};


fn flat(text: &str) -> String {
    let tokens = text.parse::<proc_macro2::TokenStream>().expect("tokens");
    tokens.to_string().split_whitespace().collect::<String>()
}

#[test]
fn scheduled_cron_lowers_to_a_const_descriptor_and_a_slice_row() {
    let spec = parse_schedule(r#"cron = "0 0 * * * *""#)
        .expect("parses");
    assert_eq!(spec, ScheduleSpec::Cron("0 0 * * * *".into()));
    let ts = emit_scheduled("Cleanup", "run", &spec);
    syn::parse_str::<syn::File>(&ts).expect("valid items");
    let s = flat(&ts);
    assert!(s.contains("::leaf_core::ScheduledMethodDescriptor::new("), "got: {s}");
    assert!(s.contains(r#"::leaf_core::TriggerSpec::Cron("00****")"#), "got: {s}");
    assert!(
        s.contains("#[::linkme::distributed_slice(::leaf_core::SCHEDULED)]"),
        "got: {s}"
    );
    assert!(s.contains(".to_row()"), "got: {s}");
}

#[test]
fn scheduled_fixed_rate_lowers_to_a_duration_trigger_spec() {
    let spec = parse_schedule("fixed_rate = 5000").expect("parses");
    assert_eq!(spec, ScheduleSpec::FixedRate { period_ms: 5000, initial_delay_ms: 0 });
    let s = flat(&emit_scheduled("Poller", "poll", &spec));
    assert!(s.contains("::leaf_core::TriggerSpec::FixedRate{"), "got: {s}");
    assert!(
        s.contains("::core::time::Duration::from_millis(5000u64)"),
        "got: {s}"
    );
}

#[test]
fn scheduled_fixed_delay_with_initial_delay() {
    let spec = parse_schedule("fixed_delay = 1000, initial_delay = 200")
        .expect("parses");
    assert_eq!(
        spec,
        ScheduleSpec::FixedDelay { delay_ms: 1000, initial_delay_ms: 200 }
    );
    let s = flat(&emit_scheduled("W", "tick", &spec));
    assert!(s.contains("::leaf_core::TriggerSpec::FixedDelay{"), "got: {s}");
    assert!(s.contains("from_millis(200u64)"), "got: {s}");
}

#[test]
fn the_scheduled_method_key_is_the_canonical_bean_method_path() {
    let spec = ScheduleSpec::Cron("* * * * * *".into());
    let s = flat(&emit_scheduled("Cleanup", "run", &spec));
    assert!(
        s.contains(
            r#"::leaf_core::MethodKey::of(::core::concat!(::core::module_path!(),"::","Cleanup","::","run"))"#
        ),
        "got: {s}"
    );
}

#[test]
fn scheduled_requires_exactly_one_trigger() {
    let err = parse_schedule("").expect_err("empty errors");
    assert!(err.message.contains("requires one of"), "got: {}", err.message);
    let err = parse_schedule(r#"cron = "x", fixed_rate = 1"#)
        .expect_err("two triggers error");
    assert!(err.message.contains("exactly one"), "got: {}", err.message);
}

#[test]
fn cacheable_emits_a_cache_op_meta_and_a_cache_advisor_row() {
    let args = parse_cache_args(r#""users", sync = true"#)
        .expect("parses");
    assert_eq!(args.cache_names, vec!["users".to_string()]);
    assert!(args.sync);
    let ts = emit_cacheable("UserService", "find", &args);
    syn::parse_str::<syn::File>(&ts).expect("valid items");
    let s = flat(&ts);
    assert!(s.contains("::leaf_core::CacheOpMeta{"), "got: {s}");
    assert!(s.contains(r#"cache_names:&["users"]"#), "got: {s}");
    assert!(s.contains("sync:true"), "got: {s}");
    assert!(
        s.contains("#[::linkme::distributed_slice(::leaf_core::ADVISORS)]"),
        "got: {s}"
    );
    assert!(s.contains("value:::leaf_core::CACHE_ORDER"), "got: {s}");
}

#[test]
fn cacheable_requires_a_cache_name() {
    let err = parse_cache_args("").expect_err("no name errors");
    assert!(err.message.contains("at least one cache name"), "got: {}", err.message);
    let err = parse_cache_args("sync = true")
        .expect_err("flags-only errors");
    assert!(err.message.contains("at least one cache name"), "got: {}", err.message);
}

#[test]
fn resource_emits_an_include_bytes_entry_and_a_resources_row() {
    let ts = emit_resource("MESSAGES", "config/app.yaml");
    syn::parse_str::<syn::File>(&ts).expect("valid items");
    let s = flat(&ts);
    assert!(s.contains("::leaf_core::ResourceEntry{"), "got: {s}");
    assert!(s.contains(r#"logical_path:"config/app.yaml""#), "got: {s}");
    assert!(s.contains(r#"bytes_fn:||::core::include_bytes!("config/app.yaml")"#), "got: {s}");
    assert!(
        s.contains("#[::linkme::distributed_slice(::leaf_core::RESOURCES)]"),
        "got: {s}"
    );
    assert!(s.contains(r#"location:"config/app.yaml""#), "got: {s}");
}

#[test]
fn catalog_emits_a_catalog_descriptor_and_a_catalogs_row() {
    let args =
        parse_catalog_args(r#"basename = "messages", locales = ["en", "de"]"#)
            .expect("parses");
    assert_eq!(args.basename, "messages");
    assert_eq!(args.locales, vec!["en".to_string(), "de".to_string()]);
    let ts = emit_catalog("AppMessages", &args);
    syn::parse_str::<syn::File>(&ts).expect("valid items");
    let s = flat(&ts);
    assert!(s.contains("::leaf_core::CatalogDescriptor{"), "got: {s}");
    assert!(s.contains(r#"basename:"messages""#), "got: {s}");
    assert!(s.contains(r#"locales:&["en","de"]"#), "got: {s}");
    assert!(
        s.contains("#[::linkme::distributed_slice(::leaf_core::CATALOGS)]"),
        "got: {s}"
    );
    assert!(s.contains("::leaf_core::CatalogRow{"), "got: {s}");
}

#[test]
fn catalog_requires_a_basename() {
    let err = parse_catalog_args(r#"locales = ["en"]"#)
        .expect_err("no basename errors");
    assert!(err.message.contains("basename"), "got: {}", err.message);
}
