use soundsync::sys::command::{CommandOutput, CommandRunner, FnRunner};
use soundsync::sys::fs::Fs;
use soundsync::sys::testing::{FakeCommandRunner, FakeFs};

fn ok(stdout: &str) -> CommandOutput {
    CommandOutput {
        status: 0,
        stdout: stdout.to_string(),
        stderr: String::new(),
    }
}

#[test]
fn particular_answers_come_before_general_ones() {
    let mut r = FakeCommandRunner::new()
        .with("a", ok("general"))
        .on("a", &["x"], ok("first"))
        .on("a", &["x", "y"], ok("second"))
        .with_error("b");
    assert_eq!(r.run("a", &["y", "x"]).unwrap().stdout, "first");
    assert_eq!(r.run("a", &["z"]).unwrap().stdout, "general");
    assert!(r.run("b", &[]).is_err());
    assert_eq!(r.run("c", &[]).unwrap().status, 127);
    assert_eq!(r.calls()[0], ("a".to_string(), vec!["y".to_string(), "x".to_string()]));
    assert!(r.ran("c"));
    assert!(!r.ran("d"));
}

#[test]
fn a_function_can_run_programs() {
    let mut r = FnRunner::new(|program: &str, args: &[&str]| Ok(ok(&format!("{program} {}", args.len()))));
    assert_eq!(r.run("a", &["b", "c"]).unwrap().stdout, "a 2");
}

#[test]
fn written_files_are_read() {
    let mut fs = FakeFs::new().with_file("/a/b", "old");
    assert_eq!(fs.read_to_string("/a/b"), Ok("old".to_string()));
    fs.write_atomic("/a", "b", "new").unwrap();
    assert_eq!(fs.read_to_string("/a/b"), Ok("new".to_string()));
    assert!(fs.read_to_string("/c").is_err());
}

#[test]
fn a_run_leaves_the_rules_as_they_are() {
    let mut runner = FakeCommandRunner::new().with(
        "date",
        CommandOutput { status: 3, stdout: String::new(), stderr: String::new() },
    );
    for _ in 0..3 {
        assert_eq!(runner.run("date", &[]).unwrap().status, 3);
        assert_eq!(runner.run("other", &[]).unwrap().status, 127);
    }
}
