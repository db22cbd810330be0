use package_new::mirror::{mirror_plan, render_plan, ActionKind, MirrorAction, SourceEntry};
use package_new::substitute::SubstitutionContext;

fn entry(path: &str, is_dir: bool) -> SourceEntry {
    SourceEntry { path: path.to_string(), is_dir }
}

fn source_tree() -> Vec<SourceEntry> {
    vec![
        entry("/tpl/sources", true),
        entry("/tpl/sources/a.move", false),
        entry("/tpl/tests", true),
        entry("/tpl/tests/a_tests.move", false),
    ]
}

fn dests(plan: &[MirrorAction]) -> Vec<String> {
    plan.iter().map(|a| a.dest.clone()).collect()
}

#[test]
fn mirror_plans_every_entry_into_an_empty_target() {
    let plan = mirror_plan("/tpl", "/out", &source_tree(), &vec![]);
    assert_eq!(
        vec!["/out/sources", "/out/sources/a.move", "/out/tests", "/out/tests/a_tests.move"],
        dests(&plan)
    );
    let kinds: Vec<ActionKind> = plan.iter().map(|a| a.kind).collect();
    assert_eq!(
        vec![ActionKind::CreateDir, ActionKind::CopyFile, ActionKind::CreateDir, ActionKind::CopyFile],
        kinds
    );
    assert_eq!("/tpl/sources/a.move", plan[1].source);
}

#[test]
fn mirror_twice_plans_nothing_the_second_time() {
    let first = mirror_plan("/tpl", "/out", &source_tree(), &vec![]);
    assert_eq!(4, first.len());
    let existing = dests(&first);
    let second = mirror_plan("/tpl", "/out", &source_tree(), &existing);
    assert!(second.is_empty());
}

#[test]
fn mirror_skips_existing_destinations() {
    let existing = vec!["/out/sources/a.move".to_string(), "/out/tests".to_string()];
    let plan = mirror_plan("/tpl", "/out", &source_tree(), &existing);
    assert_eq!(vec!["/out/sources", "/out/tests/a_tests.move"], dests(&plan));
}

#[test]
fn mirror_of_an_empty_tree_plans_nothing() {
    assert!(mirror_plan("/tpl", "/out", &vec![], &vec![]).is_empty());
}

#[test]
fn render_rewrites_destination_paths() {
    let mut ctx = SubstitutionContext::new();
    ctx.insert("package_name", "Demo");
    let entries = vec![
        entry("/tpl/{{package_name}}", true),
        entry("/tpl/{{package_name}}/{{package_name}}.move", false),
        entry("/tpl/{{other}}.txt", false),
    ];
    let plan = render_plan("/tpl", "/out", &entries, &vec![], &ctx);
    assert_eq!(vec!["/out/Demo", "/out/Demo/Demo.move", "/out/{{other}}.txt"], dests(&plan));
    assert_eq!(ActionKind::RenderFile, plan[1].kind);
}

#[test]
fn render_plans_one_step_for_colliding_destinations() {
    let mut ctx = SubstitutionContext::new();
    ctx.insert("n", "same");
    let entries = vec![entry("/tpl/{{n}}.move", false), entry("/tpl/same.move", false)];
    let plan = render_plan("/tpl", "/out", &entries, &vec![], &ctx);
    assert_eq!(vec!["/out/same.move"], dests(&plan));
    assert_eq!("/tpl/{{n}}.move", plan[0].source);
}
