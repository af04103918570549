use vicode::bwrap::{BwrapConfig, BwrapRunner, Stage};
use vicode::cli::{Cli, Command, ConfigCommand};
use vicode::config::{expand_vec, keep_expanded, AssistantRef, ConfigError, ConfigRefs};
use vicode::gitops::{add_args, diff_args, diff_pathspecs, git_prefix, gitlink_name, gitlinks, is_excluded, unpinnable, GITLINK_MODE};
use vicode::id::AgentId;
use vicode::router::spawn::inbound_text;
use vicode::subagent::{
    diff_path, failed_implementation, file_state, implementation, is_git_internal, join, render_diff,
    run_replicas_report, status, workdir_diff, FileState, Probe, ReplicaOutcome, SubagentResult, REPORT_HEADER_PROMPT,
};
use vicode::text::{concat3, decimal_string};

fn s(v: &[&str]) -> Vec<String> {
    v.iter().map(|x| x.to_string()).collect()
}

// ---------------------------------------------------------------------------
// subagent diffs and reports

#[test]
fn probes_classify_paths() {
    assert!(matches!(file_state(Probe::NotFound), FileState::Missing));
    assert!(matches!(file_state(Probe::CharDevice), FileState::Missing));
    assert!(matches!(file_state(Probe::NotFile), FileState::Binary));
    assert!(matches!(file_state(Probe::File(b"hi\n".to_vec())), FileState::Text(ref t) if t == "hi\n"));
    assert!(matches!(file_state(Probe::File(vec![0xff, 0xfe])), FileState::Binary));
}

#[test]
fn text_changes_render_as_unified_diffs() {
    let d = render_diff("f.txt", FileState::Text("a\n".to_string()), FileState::Text("b\n".to_string()));
    assert_eq!(d, "--- a/f.txt\n+++ b/f.txt\n@@ -1 +1 @@\n-a\n+b\n");
    let d = render_diff("new.txt", FileState::Missing, FileState::Text("x\n".to_string()));
    assert_eq!(d, "--- /dev/null\n+++ b/new.txt\n@@ -0,0 +1 @@\n+x\n");
    let d = render_diff("old.txt", FileState::Text("y\n".to_string()), FileState::Missing);
    assert_eq!(d, "--- a/old.txt\n+++ /dev/null\n@@ -1 +0,0 @@\n-y\n");
}

#[test]
fn binary_changes_render_as_a_summary() {
    assert_eq!(
        render_diff("img.bin", FileState::Missing, FileState::Binary),
        "diff --git a/img.bin b/img.bin\nBinary or non-text file added\n"
    );
    assert_eq!(
        render_diff("img.bin", FileState::Binary, FileState::Missing),
        "diff --git a/img.bin b/img.bin\nBinary or non-text file deleted\n"
    );
    assert_eq!(
        render_diff("img.bin", FileState::Text("t".to_string()), FileState::Binary),
        "diff --git a/img.bin b/img.bin\nBinary or non-text file changed\n"
    );
    assert_eq!(status(&FileState::Binary, &FileState::Binary), "Binary or non-text file changed");
}

#[test]
fn unchanged_paths_have_no_diff() {
    assert!(diff_path("f", FileState::Text("same".to_string()), FileState::Text("same".to_string())).is_none());
    assert!(diff_path("f", FileState::Missing, FileState::Missing).is_none());
    assert!(diff_path("f", FileState::Binary, FileState::Binary).is_none());
    assert!(diff_path("f", FileState::Missing, FileState::Binary).is_some());
}

#[test]
fn git_internals_are_recognised_by_component() {
    assert!(is_git_internal(".git"));
    assert!(is_git_internal(".git/config"));
    assert!(is_git_internal(".git/objects/ab"));
    assert!(!is_git_internal(".gitignore"));
    assert!(!is_git_internal("src/.git"));
}

#[test]
fn workdir_diff_skips_ignored_internal_and_unchanged_paths() {
    let paths = s(&[".git/index", "a.txt", "b.txt", "build/o", "c.bin"]);
    let ignored = vec![false, false, false, true, false];
    let states = vec![
        (FileState::Binary, FileState::Missing),
        (FileState::Text("1\n".to_string()), FileState::Text("2\n".to_string())),
        (FileState::Text("same".to_string()), FileState::Text("same".to_string())),
        (FileState::Missing, FileState::Text("x".to_string())),
        (FileState::Missing, FileState::Binary),
    ];
    let d = workdir_diff(&paths, &ignored, states);
    assert_eq!(
        d,
        "--- a/a.txt\n+++ b/a.txt\n@@ -1 +1 @@\n-1\n+2\n\ndiff --git a/c.bin b/c.bin\nBinary or non-text file added\n"
    );
    assert_eq!(workdir_diff(&s(&[]), &Vec::new(), Vec::new()), "");
}

#[test]
fn join_puts_the_separator_between_parts() {
    assert_eq!(join(&s(&[]), "\n"), "");
    assert_eq!(join(&s(&["a"]), "\n"), "a");
    assert_eq!(join(&s(&["a", "b", "c"]), ", "), "a, b, c");
}

#[test]
fn replica_report_lists_every_outcome() {
    let a = AgentId::from("a".to_string());
    assert_eq!(
        implementation(&a, "out", "diff\n"),
        "<implementation id=a>\nout\n```diff\ndiff\n```\n</implementation>"
    );
    assert_eq!(failed_implementation(&a, "bad"), "<implementation id=a>\nerror: bad\n</implementation>");
    let outcomes = vec![
        ReplicaOutcome::Done(a, SubagentResult { output: "o".to_string(), diff: "".to_string() }),
        ReplicaOutcome::Failed(AgentId::from("b".to_string()), "e".to_string()),
    ];
    let r = run_replicas_report(&outcomes);
    let expected = format!(
        "{REPORT_HEADER_PROMPT}<implementation id=a>\no\n```diff\n```\n</implementation>\n\n<implementation id=b>\nerror: e\n</implementation>"
    );
    assert_eq!(r.report, expected);
    assert!(REPORT_HEADER_PROMPT.starts_with("Here are multiple implementations"));
    assert!(REPORT_HEADER_PROMPT.ends_with("\n\n"));
}

#[test]
fn inbound_messages_are_tagged_with_their_sender() {
    assert_eq!(inbound_text(&AgentId::from("x-y-z".to_string()), "hi"), "[from: x-y-z]\nhi");
}

// ---------------------------------------------------------------------------
// git plumbing

#[test]
fn excluded_paths_match_whole_components() {
    let excluded = s(&["build", "target/debug"]);
    assert!(is_excluded("build", &excluded));
    assert!(is_excluded("build/out.o", &excluded));
    assert!(is_excluded("target/debug/x", &excluded));
    assert!(!is_excluded("buildx/out.o", &excluded));
    assert!(!is_excluded("target/release", &excluded));
    assert!(!is_excluded("src/build", &excluded));
    assert!(!is_excluded("build", &s(&[])));
}

#[test]
fn gitlink_names_drop_one_trailing_slash() {
    assert_eq!(gitlink_name(b"vendor/".to_vec()), b"vendor".to_vec());
    assert_eq!(gitlink_name(b"vendor".to_vec()), b"vendor".to_vec());
    assert_eq!(gitlink_name(Vec::new()), Vec::<u8>::new());
}

#[test]
fn commitless_gitlinks_are_unpinnable() {
    let modes = vec![0o100644, GITLINK_MODE, 0o120000, GITLINK_MODE];
    assert_eq!(gitlinks(&modes), vec![1, 3]);
    let links = vec![b"vendor".to_vec(), b"empty".to_vec()];
    assert_eq!(unpinnable(&links, &vec![true, false]), vec![b"empty".to_vec()]);
    assert!(unpinnable(&links, &vec![true, true]).is_empty());
}

#[test]
fn diff_command_lines() {
    assert_eq!(diff_pathspecs(&s(&[])), s(&["."]));
    assert_eq!(diff_pathspecs(&s(&["build"])), s(&[".", ":(top,exclude,literal)build"]));
    assert_eq!(
        diff_args("abc", &s(&["build"])),
        s(&["diff", "--no-ext-diff", "--no-textconv", "--no-color", "--find-renames", "abc", "--", ".", ":(top,exclude,literal)build"])
    );
    assert_eq!(add_args(), s(&["-c", "advice.addEmbeddedRepo=false", "add", "--intent-to-add", "--", "."]));
    assert_eq!(git_prefix("/tmp/s", "/w"), s(&["--git-dir", "/tmp/s", "--work-tree", "/w", "--no-pager"]));
}

// ---------------------------------------------------------------------------
// sandbox

#[test]
fn bwrap_builders_append_binds() {
    let r = BwrapRunner { bwrap_bin: "bwrap".to_string(), bwrap_args: s(&["--die-with-parent"]) };
    let r = r.rw(s(&["/a"])).ro(s(&["/b", "/c"])).tmpfs(s(&["/tmp"])).workdir("/w");
    assert_eq!(
        r.bwrap_args,
        s(&[
            "--die-with-parent", "--bind-try", "/a", "/a", "--ro-bind-try", "/b", "/b", "--ro-bind-try", "/c", "/c",
            "--tmpfs", "/tmp", "--bind-try", "/w", "/workdir", "--chdir", "/workdir",
        ])
    );
    assert_eq!(r.bwrap_bin, "bwrap");
}

#[test]
fn bwrap_from_config_expands_stages_in_order() {
    let config = BwrapConfig {
        bin: "bwrap".to_string(),
        args: s(&["--unshare-all"]),
        stages: vec![
            Stage { ro: s(&["/usr"]), rw: s(&["/dev/shm"]), tmpfs: s(&[]) },
            Stage { ro: s(&["${VICODE_SURELY_UNSET_VARIABLE_42}/x"]), rw: s(&[]), tmpfs: s(&["/tmp"]) },
        ],
    };
    let r = BwrapRunner::new(&config, "/w", "/repo/.git");
    assert_eq!(r.bwrap_bin, "bwrap");
    assert_eq!(
        r.bwrap_args,
        s(&[
            "--unshare-all", "--bind-try", "/dev/shm", "/dev/shm", "--ro-bind-try", "/usr", "/usr", "--tmpfs", "/tmp",
            "--bind-try", "/w", "/workdir", "--chdir", "/workdir", "--bind-try", "/repo/.git", "/repo/.git",
        ])
    );
    let cmd = r.command_args(&s(&["bash", "-c"]), "ls");
    assert_eq!(&cmd[cmd.len() - 3..], &s(&["bash", "-c", "ls"])[..]);
}

// ---------------------------------------------------------------------------
// config

fn refs(primary: &[&str], subagent: &[&str]) -> ConfigRefs {
    ConfigRefs {
        providers: s(&["main"]),
        assistants: vec![
            AssistantRef { id: "fast".to_string(), provider: "main".to_string() },
            AssistantRef { id: "deep".to_string(), provider: "main".to_string() },
        ],
        primary_assistant: s(primary),
        subagent_assistant: s(subagent),
    }
}

#[test]
fn parses_multi_provider_config() {
    let config = refs(&["fast", "deep"], &[]);
    assert!(config.validate().is_ok());
    assert_eq!(config.providers.len(), 1);
    let deep = config.assistants.iter().find(|a| a.id == "deep").unwrap();
    assert_eq!(deep.provider, "main");
    assert!(refs(&["fast"], &["deep"]).validate().is_ok());
}

#[test]
fn rejects_unknown_assistant_reference() {
    let err = refs(&["missing"], &[]).validate().unwrap_err();
    assert!(err.message().contains("missing"));
    assert!(matches!(err, ConfigError::UnknownAssistant(ref id) if id == "missing"));
    assert_eq!(err.message(), "unknown assistant '\"missing\"'");
}

#[test]
fn empty_primary_assistant_is_refused() {
    let err = refs(&[], &[]).validate().unwrap_err();
    assert_eq!(err.message(), "assistant must not be empty");
}

#[test]
fn unknown_subagent_assistant_is_refused() {
    let err = refs(&["fast"], &["nope"]).validate().unwrap_err();
    assert_eq!(err.message(), "unknown assistant '\"nope\"'");
}

#[test]
fn assistant_with_unknown_provider_is_refused() {
    let mut r = refs(&["fast"], &[]);
    r.assistants.push(AssistantRef { id: "x".to_string(), provider: "elsewhere".to_string() });
    let err = r.validate().unwrap_err();
    assert_eq!(err.message(), "assistant '\"x\"' references unknown provider '\"elsewhere\"'");
}

#[test]
fn vec_copies_in_order() {
    assert_eq!(vicode::config::vec(&["bash", "-c"]), s(&["bash", "-c"]));
    assert!(vicode::config::vec(&[]).is_empty());
}

#[test]
fn expansion_keeps_plain_values_and_drops_failures() {
    assert_eq!(expand_vec(&s(&["/usr", "a b"])), s(&["/usr", "a b"]));
    assert_eq!(expand_vec(&s(&["${VICODE_SURELY_UNSET_VARIABLE_42}", "/x"])), s(&["/x"]));
    assert_eq!(keep_expanded(vec![Some("a".to_string()), None, Some("b".to_string())]), s(&["a", "b"]));
}

// ---------------------------------------------------------------------------
// small things

#[test]
fn cli_shapes() {
    let cli = Cli { command: Some(Command::Cleanup { force: true }) };
    assert!(matches!(cli.command, Some(Command::Cleanup { force: true })));
    let cli = Cli { command: Some(Command::Config(ConfigCommand::Show)) };
    assert!(matches!(cli.command, Some(Command::Config(ConfigCommand::Show))));
}

#[test]
fn decimal_and_concat() {
    assert_eq!(decimal_string(0), "0");
    assert_eq!(decimal_string(1234567890), "1234567890");
    assert_eq!(decimal_string(u64::MAX), "18446744073709551615");
    assert_eq!(concat3("a", "b", "c"), "abc");
}

#[test]
fn agent_ids_compare_by_text() {
    let a = AgentId::new("x".to_string());
    let b = AgentId::from("x".to_string());
    assert!(a.same(&b));
    assert_eq!(a, b.clone());
    assert_eq!(a.as_str(), "x");
    assert!(!a.same(&AgentId::from("y".to_string())));
}

#[test]
fn duplicate_keys_are_detected() {
    assert!(refs(&["fast"], &[]).keys_distinct());
    let mut r = refs(&["fast"], &[]);
    r.providers.push("main".to_string());
    assert!(!r.keys_distinct());
    let mut r = refs(&["fast"], &[]);
    r.assistants.push(AssistantRef { id: "deep".to_string(), provider: "main".to_string() });
    assert!(!r.keys_distinct());
}
