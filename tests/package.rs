use package_new::package::{
    yes_no_answer, yes_no_folded, NewPackage, PackageDir, ScaffoldError, TargetState,
    COIN_QUESTION, DAPP_QUESTION, INIT_QUESTION,
};

fn options(dir: &str) -> NewPackage {
    NewPackage {
        package_dir: PackageDir::new(dir.to_string(), TargetState::Missing).unwrap(),
        name: None,
        add_js: None,
        add_coin: None,
        skip_profile_creation: false,
    }
}

#[test]
fn non_empty_target_is_rejected() {
    let r = PackageDir::new("/tmp/full".to_string(), TargetState::NonEmpty);
    assert_eq!(
        Some(ScaffoldError::InvalidTarget { path: "/tmp/full".to_string() }),
        r.err()
    );
}

#[test]
fn missing_or_empty_target_is_accepted() {
    assert_eq!("/tmp/new", PackageDir::new("/tmp/new".to_string(), TargetState::Missing).unwrap().as_str());
    assert_eq!("/tmp/e", PackageDir::new("/tmp/e".to_string(), TargetState::Empty).unwrap().as_str());
}

#[test]
fn package_name_from_directory() {
    assert_eq!("MyPackage", options("/tmp/my_package").package_dir.to_package_name());
    assert_eq!("DemoProject", options("/home/u/demo-project/").package_dir.to_package_name());
    assert_eq!("", options("/").package_dir.to_package_name());
}

#[test]
fn explicit_name_is_used_without_asking() {
    let mut o = options("/tmp/x");
    o.name = Some("Demo".to_string());
    let r = o.ask_package_name(|_| panic!("must not ask"));
    assert_eq!(Ok("Demo".to_string()), r);
}

#[test]
fn typed_name_is_trimmed() {
    let o = options("/tmp/my_package");
    let mut shown = String::new();
    let r = o.ask_package_name(|s| {
        shown = s.to_string();
        Some("  Other \n".to_string())
    });
    assert_eq!(Ok("Other".to_string()), r);
    assert_eq!("MyPackage", shown);
}

#[test]
fn empty_answer_takes_the_suggested_name() {
    let o = options("/tmp/my_package");
    assert_eq!(Ok("MyPackage".to_string()), o.ask_package_name(|_| Some(" \n".to_string())));
}

#[test]
fn unreadable_answer_cancels() {
    let o = options("/tmp/my_package");
    assert_eq!(Err(ScaffoldError::UserCancelled), o.ask_package_name(|_| None));
}

#[test]
fn flags_decide_without_asking() {
    let mut o = options("/tmp/x");
    o.add_coin = Some(true);
    o.add_js = Some(false);
    o.skip_profile_creation = true;
    assert!(o.ask_add_coin_module(|_, _| panic!("must not ask")));
    assert!(!o.ask_add_dapp(|_, _| panic!("must not ask")));
    assert!(!o.ask_run_aptos_init(|_, _| panic!("must not ask")));
}

#[test]
fn questions_are_asked_with_default_no() {
    let o = options("/tmp/x");
    let mut asked = Vec::new();
    assert!(o.ask_add_coin_module(|q, d| {
        asked.push((q.to_string(), d));
        true
    }));
    assert!(!o.ask_add_dapp(|q, d| {
        asked.push((q.to_string(), d));
        false
    }));
    assert!(o.ask_run_aptos_init(|q, d| {
        asked.push((q.to_string(), d));
        true
    }));
    assert_eq!(
        vec![
            (COIN_QUESTION.to_string(), false),
            (DAPP_QUESTION.to_string(), false),
            (INIT_QUESTION.to_string(), false),
        ],
        asked
    );
}

#[test]
fn yes_no_answers() {
    assert_eq!(Some(true), yes_no_folded(" y\n", false));
    assert_eq!(Some(true), yes_no_folded("yes", false));
    assert_eq!(Some(false), yes_no_folded("no", true));
    assert_eq!(Some(false), yes_no_folded("n", true));
    assert_eq!(Some(true), yes_no_folded("  ", true));
    assert_eq!(Some(false), yes_no_folded("", false));
    assert_eq!(None, yes_no_folded("maybe", false));
    assert_eq!(None, yes_no_folded("YES", false));
}

#[test]
fn yes_no_answers_ignore_case() {
    assert_eq!(Some(true), yes_no_answer("YES\n", false));
    assert_eq!(Some(false), yes_no_answer(" No ", true));
    assert_eq!(None, yes_no_answer("Nope", true));
}

#[test]
fn empty_explicit_name_is_refused() {
    let mut o = options("/tmp/x");
    o.name = Some(String::new());
    assert_eq!(Err(ScaffoldError::EmptyPackageName), o.ask_package_name(|_| None));
}

#[test]
fn blank_answer_without_suggestion_is_refused() {
    let o = options("/");
    assert_eq!(Err(ScaffoldError::EmptyPackageName), o.ask_package_name(|_| Some("  ".to_string())));
}

#[test]
fn non_ascii_directory_name_is_kept() {
    assert_eq!("aÉ", options("/tmp/aÉ").package_dir.to_package_name());
    assert_eq!("1é", options("/tmp/1é").package_dir.to_package_name());
}
