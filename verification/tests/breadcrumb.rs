use ravix::submodule::breadcrumb_label;

#[test]
fn a_root_repo_shows_just_its_name() {
    let label = breadcrumb_label(&[], "/home/dev/myrepo");

    assert_eq!(label, "myrepo");
}

#[test]
fn one_level_deep_shows_parent_then_sub() {
    let ancestors = vec![String::from("/home/dev/app")];

    let label = breadcrumb_label(&ancestors, "/home/dev/app/vendor/libcore");

    assert_eq!(label, "app › libcore");
}

#[test]
fn nested_submodules_join_with_a_separator() {
    let ancestors = vec![
        String::from("/home/dev/app"),
        String::from("/home/dev/app/vendor/lib"),
    ];

    let label = breadcrumb_label(&ancestors, "/home/dev/app/vendor/lib/inner");

    assert_eq!(label, "app › lib › inner");
}

#[test]
fn a_trailing_slash_still_names_the_directory() {
    assert_eq!(breadcrumb_label(&[], "/home/dev/myrepo/"), "myrepo");
}
