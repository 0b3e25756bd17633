use dedupe::ascii::eq_ignore_ascii_case;
use dedupe::group::get_file_map;
use dedupe::keep::get_kept_file;
use dedupe::name::split_name;
use dedupe::options::Options;
use dedupe::paths::join_path;
use dedupe::plan::action_op;
use dedupe::plan::executed_ops;
use dedupe::plan::plan_group;
use dedupe::plan::resolve_group;
use dedupe::plan::Action;
use dedupe::plan::FsOp;

fn b(s: &str) -> Vec<u8> {
    s.as_bytes().to_vec()
}

fn names_of(list: &[&str]) -> Vec<Vec<u8>> {
    let mut v = Vec::new();
    for s in list {
        v.push(b(s));
    }
    v
}

#[test]
fn split_name_plain() {
    let r = split_name(&b("photo.jpg"));
    let (stem, ext) = r.unwrap();
    assert_eq!(stem, b("photo"));
    assert_eq!(ext, b("jpg"));
}

#[test]
fn split_name_no_dot() {
    assert!(split_name(&b("README")).is_none());
}

#[test]
fn split_name_leading_dot_only() {
    assert!(split_name(&b(".hidden")).is_none());
}

#[test]
fn split_name_empty() {
    assert!(split_name(&b("")).is_none());
}

#[test]
fn split_name_several_dots() {
    let (stem, ext) = split_name(&b("x.tar.gz")).unwrap();
    assert_eq!(stem, b("x.tar"));
    assert_eq!(ext, b("gz"));
}

#[test]
fn split_name_trailing_dot() {
    let (stem, ext) = split_name(&b("notes.")).unwrap();
    assert_eq!(stem, b("notes"));
    assert_eq!(ext, b(""));
}

#[test]
fn ascii_case_comparison() {
    assert!(eq_ignore_ascii_case(&b("JPG"), &b("jpg")));
    assert!(eq_ignore_ascii_case(&b("jPeG"), &b("Jpeg")));
    assert!(!eq_ignore_ascii_case(&b("jpg"), &b("jpeg")));
    assert!(!eq_ignore_ascii_case(&b("jpg"), &b("png")));
    assert!(eq_ignore_ascii_case(&b(""), &b("")));
}

#[test]
fn join_path_cases() {
    assert_eq!(join_path(&b("root"), &b("a.jpg")), b("root/a.jpg"));
    assert_eq!(join_path(&b("root/"), &b("a.jpg")), b("root/a.jpg"));
    assert_eq!(join_path(&b(""), &b("a.jpg")), b("a.jpg"));
}

#[test]
fn grouping_by_stem() {
    let names = names_of(&["a.jpg", "b.png", "a.raw", "README", ".hidden", "x.tar.gz"]);
    let groups = get_file_map(&b("root"), &names);
    assert_eq!(groups.len(), 3);
    assert_eq!(groups[0].stem, b("a"));
    assert_eq!(groups[0].entries.len(), 2);
    assert_eq!(groups[0].entries[0].name, b("a.jpg"));
    assert_eq!(groups[0].entries[0].ext, b("jpg"));
    assert_eq!(groups[0].entries[0].path, b("root/a.jpg"));
    assert_eq!(groups[0].entries[1].name, b("a.raw"));
    assert_eq!(groups[1].stem, b("b"));
    assert_eq!(groups[1].entries.len(), 1);
    assert_eq!(groups[1].entries[0].path, b("root/b.png"));
    assert_eq!(groups[2].stem, b("x.tar"));
    assert_eq!(groups[2].entries[0].ext, b("gz"));
}

#[test]
fn extensionless_names_excluded() {
    let names = names_of(&["README", ".hidden", "a.jpg", "Makefile"]);
    let groups = get_file_map(&b("d"), &names);
    assert_eq!(groups.len(), 1);
    for g in groups.iter() {
        for e in g.entries.iter() {
            assert_ne!(e.name, b("README"));
            assert_ne!(e.name, b(".hidden"));
            assert_ne!(e.name, b("Makefile"));
        }
    }
}

#[test]
fn keeper_first_priority_present() {
    let names = names_of(&["a.jpg", "a.raw", "a.xmp"]);
    let groups = get_file_map(&b("d"), &names);
    let keep = names_of(&["raw", "jpg"]);
    let kept = get_kept_file(&keep, &groups[0].entries);
    assert_eq!(kept, Some(1));
    assert_eq!(groups[0].entries[1].name, b("a.raw"));
}

#[test]
fn keeper_scenario_raw_over_jpg() {
    let names = names_of(&["a.jpg", "a.raw", "a.xmp"]);
    let groups = get_file_map(&b("d"), &names);
    let keep = names_of(&["raw", "jpg"]);
    let plan = plan_group(&groups[0], &keep, &None).unwrap();
    assert_eq!(plan.keeping, b("d/a.raw"));
    assert_eq!(plan.actions.len(), 2);
    assert_eq!(plan.actions[0].path, b("d/a.jpg"));
    assert_eq!(plan.actions[1].path, b("d/a.xmp"));
    for a in plan.actions.iter() {
        assert!(matches!(a.action, Action::Delete));
    }
}

#[test]
fn no_priority_matches_nothing_happens() {
    let names = names_of(&["b.png"]);
    let groups = get_file_map(&b("d"), &names);
    let keep = names_of(&["jpg"]);
    assert!(plan_group(&groups[0], &keep, &None).is_none());
}

#[test]
fn keeper_case_insensitive() {
    let names = names_of(&["a.jpg"]);
    let groups = get_file_map(&b("d"), &names);
    let keep = names_of(&["JPG"]);
    assert_eq!(get_kept_file(&keep, &groups[0].entries), Some(0));
}

#[test]
fn keeper_tie_first_in_listing_order() {
    let names = names_of(&["a.jpg", "a.JPG"]);
    let groups = get_file_map(&b("d"), &names);
    let keep = names_of(&["jpg"]);
    assert_eq!(get_kept_file(&keep, &groups[0].entries), Some(0));
}

#[test]
fn single_member_group_plans_no_action() {
    let names = names_of(&["a.jpg"]);
    let groups = get_file_map(&b("d"), &names);
    let keep = names_of(&["jpg"]);
    let plan = plan_group(&groups[0], &keep, &None).unwrap();
    assert_eq!(plan.keeping, b("d/a.jpg"));
    assert!(plan.actions.is_empty());
}

#[test]
fn move_mode_only_relocates() {
    let names = names_of(&["a.jpg", "a.raw", "a.xmp"]);
    let groups = get_file_map(&b("d"), &names);
    let keep = names_of(&["raw"]);
    let plan = plan_group(&groups[0], &keep, &Some(b("dest"))).unwrap();
    assert_eq!(plan.actions.len(), 2);
    match &plan.actions[0].action {
        Action::Move { dest } => assert_eq!(dest, &b("dest/a.jpg")),
        Action::Delete => panic!("move mode planned a deletion"),
    }
    match &plan.actions[1].action {
        Action::Move { dest } => assert_eq!(dest, &b("dest/a.xmp")),
        Action::Delete => panic!("move mode planned a deletion"),
    }
}

#[test]
fn resolve_group_skips_keeper() {
    let names = names_of(&["a.jpg", "a.raw", "a.xmp"]);
    let groups = get_file_map(&b("d"), &names);
    let actions = resolve_group(&groups[0], 1, &None);
    assert_eq!(actions.len(), 2);
    assert_eq!(actions[0].path, b("d/a.jpg"));
    assert_eq!(actions[1].path, b("d/a.xmp"));
}

#[test]
fn subdir_options_rewrite_both_roots() {
    let opts = Options {
        recursive: true,
        keep: names_of(&["log"]),
        move_to: Some(b("M")),
        in_dir: b("root"),
    };
    let sub = opts.clone_with_subdir(&b("sub"));
    assert!(sub.recursive);
    assert_eq!(sub.in_dir, b("root/sub"));
    assert_eq!(sub.move_to, Some(b("M/sub")));
    assert_eq!(sub.keep.len(), 1);
    assert_eq!(sub.keep[0], b("log"));
}

#[test]
fn recursive_move_lands_under_mirrored_subdir() {
    let opts = Options {
        recursive: true,
        keep: names_of(&["log"]),
        move_to: Some(b("M")),
        in_dir: b("root"),
    };
    let sub = opts.clone_with_subdir(&b("sub"));
    let names = names_of(&["x.tmp", "x.log"]);
    let groups = get_file_map(&sub.in_dir, &names);
    let plan = plan_group(&groups[0], &sub.keep, &sub.move_to).unwrap();
    assert_eq!(plan.keeping, b("root/sub/x.log"));
    assert_eq!(plan.actions.len(), 1);
    assert_eq!(plan.actions[0].path, b("root/sub/x.tmp"));
    let op = action_op(&plan.actions[0], true).unwrap();
    match op {
        FsOp::Rename { from, to } => {
            assert_eq!(from, b("root/sub/x.tmp"));
            assert_eq!(to, b("M/sub/x.tmp"));
        }
        FsOp::Remove { .. } => panic!("move mode released a removal"),
    }
}

#[test]
fn declined_prompt_releases_nothing() {
    let names = names_of(&["a.jpg", "a.raw"]);
    let groups = get_file_map(&b("d"), &names);
    let keep = names_of(&["raw"]);
    let plan = plan_group(&groups[0], &keep, &None).unwrap();
    assert!(action_op(&plan.actions[0], false).is_none());
    let ops = executed_ops(&plan.actions, &vec![false]);
    assert!(ops.is_empty());
}

#[test]
fn confirmed_delete_releases_removal() {
    let names = names_of(&["a.jpg", "a.raw"]);
    let groups = get_file_map(&b("d"), &names);
    let keep = names_of(&["raw"]);
    let plan = plan_group(&groups[0], &keep, &None).unwrap();
    let op = action_op(&plan.actions[0], true).unwrap();
    match op {
        FsOp::Remove { path } => assert_eq!(path, b("d/a.jpg")),
        FsOp::Rename { .. } => panic!("delete mode released a rename"),
    }
}

#[test]
fn scripted_confirmations_keep_order() {
    let names = names_of(&["a.jpg", "a.raw", "a.xmp", "a.png"]);
    let groups = get_file_map(&b("d"), &names);
    let keep = names_of(&["raw"]);
    let plan = plan_group(&groups[0], &keep, &None).unwrap();
    assert_eq!(plan.actions.len(), 3);
    let ops = executed_ops(&plan.actions, &vec![true, false, true]);
    assert_eq!(ops.len(), 2);
    match &ops[0] {
        FsOp::Remove { path } => assert_eq!(path, &b("d/a.jpg")),
        FsOp::Rename { .. } => panic!("delete mode released a rename"),
    }
    match &ops[1] {
        FsOp::Remove { path } => assert_eq!(path, &b("d/a.png")),
        FsOp::Rename { .. } => panic!("delete mode released a rename"),
    }
}

#[test]
fn planning_twice_is_identical() {
    let names = names_of(&["a.jpg", "a.raw", "a.xmp"]);
    let keep = names_of(&["raw", "jpg"]);
    let groups1 = get_file_map(&b("d"), &names);
    let groups2 = get_file_map(&b("d"), &names);
    let plan1 = plan_group(&groups1[0], &keep, &None).unwrap();
    let plan2 = plan_group(&groups2[0], &keep, &None).unwrap();
    assert_eq!(plan1.keeping, plan2.keeping);
    assert_eq!(plan1.actions.len(), plan2.actions.len());
    for (a1, a2) in plan1.actions.iter().zip(plan2.actions.iter()) {
        assert_eq!(a1.path, a2.path);
    }
}

#[test]
fn empty_extension_can_be_kept() {
    let names = names_of(&["notes.", "notes.bak"]);
    let groups = get_file_map(&b("d"), &names);
    let keep = names_of(&[""]);
    let kept = get_kept_file(&keep, &groups[0].entries);
    assert_eq!(kept, Some(0));
}
