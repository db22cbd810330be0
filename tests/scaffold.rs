use package_new::mirror::{render_plan, SourceEntry};
use package_new::package::{PackageDir, ScaffoldError, TargetState};
use package_new::scaffold::{
    add_coin_address, add_framework_dependency, base_structure, package_manifest, profile_address,
    render_steps, template_cache_dir, template_fetch, TEMPLATE_URL,
};
use package_new::substitute::{str_replace_position, SubstitutionContext};

fn demo_dir() -> PackageDir {
    PackageDir::new("/tmp/demo".to_string(), TargetState::Missing).unwrap()
}

#[test]
fn skipped_profile_gives_the_placeholder() {
    assert_eq!(Ok("_".to_string()), profile_address(false, None));
    assert_eq!(Ok("_".to_string()), profile_address(false, Some("0x1".to_string())));
}

#[test]
fn recorded_profile_address_is_used() {
    assert_eq!(Ok("0xabc".to_string()), profile_address(true, Some("0xabc".to_string())));
}

#[test]
fn missing_profile_address_is_an_error() {
    assert!(matches!(profile_address(true, None), Err(ScaffoldError::ProfileInitError { .. })));
}

#[test]
fn package_context_holds_snake_case_name() {
    let ctx = SubstitutionContext::for_package("DemoPackage", "0x1");
    assert_eq!(
        "DemoPackage demo_package 0x1 0x1",
        str_replace_position(
            "{{package_name}} {{package_lowercase_name}} {{default_address}} {{address}}",
            &ctx
        )
    );
}

#[test]
fn framework_dependency_added_once() {
    let t = add_framework_dependency("[package]\n");
    assert!(t.starts_with("[package]\n\n\n[dependencies.AptosFramework]\n"));
    assert!(t.contains("subdir = \"aptos-move/framework/aptos-framework\"\n"));
    assert_eq!(t, add_framework_dependency(&t));
}

#[test]
fn coin_address_goes_under_the_address_header() {
    assert_eq!(
        "[addresses]\ncoin_address = \"0x1\"\n\nx = \"_\"\n",
        add_coin_address("[addresses]\nx = \"_\"\n", "0x1")
    );
}

#[test]
fn coin_address_without_header_opens_a_section() {
    assert_eq!(
        "[package]\n\n[addresses]\ncoin_address = \"_\"\n",
        add_coin_address("[package]", "_")
    );
}

#[test]
fn empty_target_without_variants() {
    let dir = demo_dir();
    let address = profile_address(false, None).unwrap();
    assert_eq!(
        vec!["/tmp/demo", "/tmp/demo/sources", "/tmp/demo/tests"],
        base_structure(&dir, false)
    );
    let plan = render_steps(&dir, "Demo", false, false, &address);
    assert_eq!("/tmp/demo/Move.toml", plan.manifest_path);
    assert!(plan.copies.is_empty());
    assert!(plan.manifest.contains("name = \"Demo\"\n"));
    assert!(plan.manifest.contains("demo = \"_\"\n"));
    assert!(!plan.manifest.contains("{{"));
    assert!(plan.manifest.contains("[dependencies.AptosFramework]"));
    assert!(!plan.manifest.contains("coin_address"));
}

#[test]
fn empty_target_with_coin_variant() {
    let dir = demo_dir();
    let plan = render_steps(&dir, "Demo", true, false, "_");
    let copies: Vec<(String, String)> =
        plan.copies.iter().map(|c| (c.template.clone(), c.dest.clone())).collect();
    assert_eq!(
        vec![
            ("_default/sources".to_string(), "/tmp/demo/sources".to_string()),
            ("_default/tests".to_string(), "/tmp/demo/tests".to_string()),
            ("_coin/sources".to_string(), "/tmp/demo/sources".to_string()),
            ("_coin/tests".to_string(), "/tmp/demo/tests".to_string()),
        ],
        copies
    );
    assert!(plan.manifest.contains("[addresses]\ncoin_address = \"_\"\n"));
    let entries = vec![
        SourceEntry { path: "/cache/_coin/sources".to_string() + "/{{package_name}}.move", is_dir: false },
    ];
    let steps = render_plan("/cache/_coin/sources", &copies[2].1, &entries, &vec![], &plan.context);
    assert_eq!("/tmp/demo/sources/Demo.move", steps[0].dest);
    assert_eq!(
        "module Demo::coin {}",
        str_replace_position("module {{package_name}}::coin {}", &plan.context)
    );
}

#[test]
fn dapp_variant_adds_the_js_directory() {
    let dir = demo_dir();
    assert_eq!(
        vec!["/tmp/demo", "/tmp/demo/sources", "/tmp/demo/tests", "/tmp/demo/js"],
        base_structure(&dir, true)
    );
    let plan = render_steps(&dir, "Demo", false, true, "_");
    assert_eq!(3, plan.copies.len());
    assert_eq!("_default/sources", plan.copies[0].template);
    assert_eq!("_default/tests", plan.copies[1].template);
    assert_eq!("_typescript/js", plan.copies[2].template);
    assert_eq!("/tmp/demo/js", plan.copies[2].dest);
}

#[test]
fn manifest_for_a_context() {
    let ctx = SubstitutionContext::for_package("My Coin", "0x42");
    let m = package_manifest(&ctx, true, "0x42");
    assert!(m.contains("name = \"My Coin\""));
    assert!(m.contains("my_coin = \"0x42\""));
    assert!(m.contains("coin_address = \"0x42\""));
}

#[test]
fn templates_are_fetched_only_when_missing() {
    assert_eq!(Some(TEMPLATE_URL), template_fetch(false));
    assert_eq!(None, template_fetch(true));
    assert_eq!("/tmp/aptos_templates", template_cache_dir("/tmp"));
}

#[test]
fn recorded_account_is_read_as_a_hex_literal() {
    let config = "---\nprofiles:\n  default:\n    public_key: \"0xab\"\n    account: 12ef\n    rest_url: \"https://x\"\n";
    assert_eq!(Some("0x12ef".to_string()), package_new::scaffold::recorded_account(config));
    assert_eq!(
        Some("0x12ef".to_string()),
        package_new::scaffold::recorded_account("profiles:\n  default:\n    account: 0x12ef")
    );
}

#[test]
fn recorded_account_is_the_default_profiles() {
    let config = "profiles:\n  other:\n    account: aa\n  default:\n    account: bb\n";
    assert_eq!(Some("0xbb".to_string()), package_new::scaffold::recorded_account(config));
    let ended = "profiles:\n  default:\n    rest_url: x\n  other:\n    account: aa\n";
    assert_eq!(None, package_new::scaffold::recorded_account(ended));
}

#[test]
fn no_recorded_account() {
    assert_eq!(None, package_new::scaffold::recorded_account("profiles:\n  default:\n"));
    assert_eq!(None, package_new::scaffold::recorded_account("default:\n  account:   \n"));
    assert_eq!(None, package_new::scaffold::recorded_account("account: 12"));
    assert_eq!(None, package_new::scaffold::recorded_account(""));
}

#[test]
fn non_ascii_name_keeps_its_lowercase_form() {
    let ctx = SubstitutionContext::for_package("Démo", "_");
    assert_eq!("Démo", str_replace_position("{{package_lowercase_name}}", &ctx));
}
