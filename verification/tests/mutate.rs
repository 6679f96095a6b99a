use ravix::askpass::AskpassConfig;
use ravix::mutate::{
    GitCli, GitCommand, MutationError, SOCK_ENV, finish, merge_tree_from, stash_paths_from,
    summarize,
};

fn args(command: &GitCommand) -> Vec<&str> {
    command.args.iter().map(String::as_str).collect()
}

#[test]
fn each_change_is_the_git_command_it_names() {
    let git = GitCli::new("/repo");
    assert_eq!(args(&git.stage_file("a.rs")), ["add", "--", "a.rs"]);
    assert_eq!(args(&git.unstage_file("a.rs")), ["restore", "--staged", "--", "a.rs"]);
    assert_eq!(args(&git.stage_all()), ["add", "-A"]);
    assert_eq!(args(&git.create_branch("topic", "abc")), ["switch", "-c", "topic", "abc"]);
    assert_eq!(args(&git.rebase("main")), ["-c", "core.editor=true", "rebase", "main"]);
    assert_eq!(args(&git.stash_pop(12)), ["stash", "pop", "stash@{12}"]);
    assert_eq!(
        args(&git.stash_restore_file(3, "x.txt", true)),
        ["restore", "--source=stash@{3}^3", "--", "x.txt"]
    );
    assert_eq!(
        args(&git.stash_restore_file(0, "x.txt", false)),
        ["restore", "--source=stash@{0}", "--", "x.txt"]
    );
    assert_eq!(
        args(&git.stash_save(Some("wip"))),
        ["stash", "push", "--include-untracked", "-m", "wip"]
    );
    assert_eq!(args(&git.stash_save(None)), ["stash", "push", "--include-untracked"]);
}

#[test]
fn a_patch_or_message_goes_on_standard_input() {
    let git = GitCli::new("/repo");
    let stage = git.stage_hunk("@@ patch");
    assert_eq!(args(&stage), ["apply", "--cached", "--whitespace=nowarn"]);
    assert_eq!(stage.stdin.as_deref(), Some("@@ patch"));
    let commit = git.commit("msg");
    assert_eq!(args(&commit), ["commit", "--quiet", "-F", "-"]);
    assert_eq!(commit.stdin.as_deref(), Some("msg"));
    assert_eq!(git.fetch().stdin, None);
}

#[test]
fn runs_never_prompt_and_reach_the_askpass_helper_when_set() {
    let git = GitCli::new("/repo");
    let plain = git.push();
    assert_eq!(plain.workdir, "/repo");
    assert_eq!(plain.env, vec![("GIT_TERMINAL_PROMPT".to_string(), "0".to_string())]);

    let git = git.with_askpass(AskpassConfig {
        helper: "/bin/helper".to_string(),
        socket: "/tmp/sock".to_string(),
    });
    let env = git.push().env;
    assert_eq!(env.len(), 3);
    assert_eq!(env[1], ("GIT_ASKPASS".to_string(), "/bin/helper".to_string()));
    assert_eq!(env[2], (SOCK_ENV.to_string(), "/tmp/sock".to_string()));
}

#[test]
fn restoring_no_files_runs_nothing() {
    let git = GitCli::new("/repo");
    assert!(git.restore_from_head(&[]).is_none());
    let command = git.restore_from_head(&["a".to_string(), "b".to_string()]).unwrap();
    assert_eq!(
        args(&command),
        ["restore", "--source=HEAD", "--staged", "--worktree", "--", "a", "b"]
    );
}

#[test]
fn queries_list_what_they_ask_for() {
    let git = GitCli::new("/repo");
    assert_eq!(
        args(&git.merge_tree("HEAD", "topic", Some("base"))),
        [
            "merge-tree",
            "--write-tree",
            "--name-only",
            "--no-messages",
            "--merge-base=base",
            "HEAD",
            "topic"
        ]
    );
    assert!(git.merge_tree("a", "b", None).env.is_empty());
    assert_eq!(
        args(&git.stash_paths(1)),
        ["-c", "core.quotePath=false", "stash", "show", "--name-only", "-z", "stash@{1}"]
    );
    assert_eq!(
        args(&git.stash_list()),
        ["stash", "list", "--format=%gd%x00%ct%x00%gs%x00%H"]
    );
}

#[test]
fn a_failed_run_names_its_command_and_keeps_its_output() {
    let command_args = vec!["apply".to_string(), "--cached".to_string()];
    assert!(finish(&command_args, true, "", "").is_ok());
    match finish(&command_args, false, " out \n", "\n err ") {
        Err(MutationError::Failed { command, stderr, stdout }) => {
            assert_eq!(command, "git apply --cached");
            assert_eq!(stderr, "err");
            assert_eq!(stdout, "out");
        }
        other => panic!("unexpected {other:?}"),
    }
}

#[test]
fn the_detail_prefers_a_stated_reason() {
    assert_eq!(
        summarize("hint: something\nerror: patch failed: a.rs:3\nfatal: bad"),
        "error: patch failed: a.rs:3"
    );
    assert_eq!(summarize("\n\n  first   line  here \nsecond"), "first line here");
    assert_eq!(summarize(""), "");
    let long = "x".repeat(200);
    let clipped = summarize(&long);
    assert_eq!(clipped.chars().count(), 161);
    assert!(clipped.ends_with('…'));
}

#[test]
fn a_blank_stderr_falls_back_to_stdout() {
    let error = MutationError::Failed {
        command: "git stash apply".to_string(),
        stderr: "   ".to_string(),
        stdout: "CONFLICT (content): Merge conflict in a.txt".to_string(),
    };
    assert_eq!(error.detail(), "CONFLICT (content): Merge conflict in a.txt");
    assert_eq!(
        error.message(),
        "git stash apply: CONFLICT (content): Merge conflict in a.txt"
    );
}

#[test]
fn stderr_gives_the_reason_when_present() {
    let error = MutationError::Failed {
        command: "git push".to_string(),
        stderr: "fatal: no upstream".to_string(),
        stdout: String::new(),
    };
    assert_eq!(error.detail(), "fatal: no upstream");
    let silent = MutationError::Failed {
        command: "git push".to_string(),
        stderr: String::new(),
        stdout: String::new(),
    };
    assert_eq!(silent.message(), "git push failed");
    let spawn = MutationError::Spawn("No such file".to_string());
    assert_eq!(spawn.message(), "could not run git: No such file");
}

#[test]
fn query_output_is_read_back() {
    assert_eq!(stash_paths_from(true, "a.txt\0b/c.txt\0"), vec!["a.txt", "b/c.txt"]);
    assert!(stash_paths_from(false, "a.txt\0").is_empty());
    let result = merge_tree_from(false, "treeid\n a.txt \n\nb.txt\n");
    assert!(result.conflicted);
    assert_eq!(result.files, vec!["a.txt", "b.txt"]);
    assert!(merge_tree_from(true, "").files.is_empty());
}

#[test]
fn every_other_change_is_the_git_command_it_names() {
    let git = GitCli::new("/repo");
    assert_eq!(args(&git.submodule_init("lib")), ["submodule", "update", "--init", "--", "lib"]);
    assert_eq!(args(&git.submodule_update("lib")), ["submodule", "update", "--checkout", "--", "lib"]);
    assert_eq!(args(&git.discard_file("a")), ["restore", "--recurse-submodules", "--", "a"]);
    assert_eq!(args(&git.discard_hunk("p")), ["apply", "--reverse", "--whitespace=nowarn"]);
    assert_eq!(git.discard_hunk("p").stdin.as_deref(), Some("p"));
    assert_eq!(args(&git.reset_soft_previous()), ["reset", "--soft", "HEAD@{1}"]);
    assert_eq!(args(&git.reset_keep("abc")), ["reset", "--keep", "abc"]);
    assert_eq!(args(&git.switch_branch("dev")), ["switch", "dev"]);
    assert_eq!(args(&git.checkout_detached("abc")), ["checkout", "abc"]);
    assert_eq!(args(&git.checkout("dev")), ["checkout", "dev"]);
    assert_eq!(args(&git.delete_branch("dev")), ["branch", "-d", "dev"]);
    assert_eq!(args(&git.force_delete_branch("dev")), ["branch", "-D", "dev"]);
    assert_eq!(args(&git.delete_remote_branch("origin", "dev")), ["push", "origin", "--delete", "dev"]);
    assert_eq!(
        args(&git.switch_create_track("dev", "origin/dev")),
        ["switch", "-c", "dev", "--track", "origin/dev"]
    );
    assert_eq!(args(&git.create_branch_at("dev", "abc")), ["branch", "dev", "abc"]);
    assert_eq!(args(&git.merge_ff("dev")), ["merge", "--ff-only", "dev"]);
    assert_eq!(args(&git.merge_no_ff("dev")), ["merge", "--no-ff", "--no-edit", "dev"]);
    assert_eq!(args(&git.cherry_pick("abc")), ["cherry-pick", "abc"]);
    assert_eq!(args(&git.cherry_pick_abort()), ["cherry-pick", "--abort"]);
    assert_eq!(args(&git.merge_abort()), ["merge", "--abort"]);
    assert_eq!(args(&git.fetch()), ["fetch"]);
    assert_eq!(args(&git.push()), ["push"]);
    assert_eq!(args(&git.push_set_upstream("origin", "dev")), ["push", "-u", "origin", "dev"]);
    assert_eq!(args(&git.push_force_with_lease()), ["push", "--force-with-lease"]);
    assert_eq!(args(&git.rebase_continue()), ["-c", "core.editor=true", "rebase", "--continue"]);
    assert_eq!(args(&git.rebase_skip()), ["rebase", "--skip"]);
    assert_eq!(args(&git.rebase_abort()), ["rebase", "--abort"]);
    assert_eq!(args(&git.stash_apply(2)), ["stash", "apply", "stash@{2}"]);
    assert_eq!(args(&git.stash_drop(0)), ["stash", "drop", "stash@{0}"]);
    assert_eq!(args(&git.stash_branch(1, "rescue")), ["stash", "branch", "rescue", "stash@{1}"]);
    assert_eq!(args(&git.unstage_all()), ["restore", "--staged", "."]);
    assert_eq!(args(&git.unstage_hunk("p")), ["apply", "--cached", "--reverse", "--whitespace=nowarn"]);
}
