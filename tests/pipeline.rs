use ion_shell::pipeline::{expand_args, has_glob, Job, JobKind, Pipeline};

fn strings(words: &[&str]) -> Vec<String> {
    words.iter().map(|w| w.to_string()).collect()
}

#[test]
fn job_command_is_first_argument() {
    let job = Job::new(strings(&["echo", "hi"]), JobKind::Pipe);
    assert_eq!("echo", job.command);
    assert_eq!(strings(&["echo", "hi"]), job.args);
    assert_eq!(JobKind::Pipe, job.kind);
    assert_eq!(strings(&["hi"]), job.command_args());
}

#[test]
fn expansion_replaces_a_pattern_by_its_matches() {
    let args = strings(&["ls", "*.txt"]);
    let matches = vec![vec![], strings(&["a.txt", "b.txt"])];
    assert_eq!(strings(&["ls", "a.txt", "b.txt"]), expand_args(&args, &matches));
}

#[test]
fn expansion_keeps_a_pattern_without_matches() {
    let args = strings(&["ls", "nomatch*.xyz"]);
    let matches = vec![vec![], vec![]];
    assert_eq!(args, expand_args(&args, &matches));
}

#[test]
fn expansion_ignores_matches_of_plain_words() {
    let args = strings(&["ls", "plain"]);
    let matches = vec![vec![], strings(&["other"])];
    assert_eq!(args, expand_args(&args, &matches));
}

#[test]
fn wildcards_are_recognised() {
    assert!(has_glob(&"a?c".to_string()));
    assert!(has_glob(&"*.rs".to_string()));
    assert!(has_glob(&"[ab]".to_string()));
    assert!(!has_glob(&"plain.txt".to_string()));
}

#[test]
fn glob_pass_on_the_file_system() {
    let mut job = Job::new(strings(&["ls", "/pro?", "nomatch*.xyz", "bad[", "x"]), JobKind::And);
    job.expand_globs();
    assert_eq!(strings(&["ls", "/proc", "nomatch*.xyz", "bad[", "x"]), job.args);
    assert_eq!("ls", job.command);

    let mut pipeline = Pipeline::new(
        vec![Job::new(strings(&["cat", "/pro[c]"]), JobKind::Pipe)],
        None,
        None,
    );
    pipeline.expand_globs();
    assert_eq!(strings(&["cat", "/proc"]), pipeline.jobs[0].args);
    pipeline.expand_globs();
    assert_eq!(strings(&["cat", "/proc"]), pipeline.jobs[0].args);
}
