use parex::args::DynArgBuilderMaker;
use parex::pool::{select_program, PollOutcome, ProcPool};

fn append_pool(max_args: usize, min_args: usize, max_parallelism: usize) -> ProcPool {
    let maker = DynArgBuilderMaker {
        is_template: false,
        initial_args: vec![],
        max_args,
        min_args,
    };
    ProcPool::new("prog".to_string(), maker, max_parallelism, false)
}

#[test]
fn append_spawns_at_max_then_flushes_remainder() {
    let mut pool = append_pool(2, 1, 4);
    assert!(!pool.push_arg("a"));
    assert!(pool.push_arg("b"));
    let argv = pool.prepare_spawn();
    assert_eq!(argv, ["a", "b"]);
    pool.note_spawned();
    assert_eq!(pool.running, 1);
    assert!(!pool.push_arg("c"));
    let flush = pool.flush_viable();
    assert_eq!(flush, Some(vec!["c".to_string()]));
}

#[test]
fn append_under_min_is_discarded_at_end() {
    let mut pool = append_pool(3, 2, 4);
    assert!(!pool.push_arg("x"));
    assert_eq!(pool.flush_viable(), None);
}

#[test]
fn unfinished_template_is_discarded_at_end() {
    let maker = DynArgBuilderMaker {
        is_template: true,
        initial_args: vec!["{0}".into(), "{1}".into()],
        max_args: 1,
        min_args: 1,
    };
    let mut pool = ProcPool::new("prog".to_string(), maker, 2, false);
    assert!(!pool.push_arg("only"));
    assert_eq!(pool.flush_viable(), None);
}

#[test]
fn capacity_is_never_exceeded() {
    let mut pool = append_pool(1, 1, 2);
    assert!(pool.push_arg("a"));
    pool.prepare_spawn();
    pool.note_spawned();
    assert!(pool.push_arg("b"));
    pool.prepare_spawn();
    pool.note_spawned();
    assert_eq!(pool.running, 2);
    assert_eq!(pool.running, pool.max_parallelism);
    let flush = pool.reap(&vec![PollOutcome::StillRunning, PollOutcome::Exited(None)]);
    assert!(flush.is_empty());
    assert_eq!(pool.running, 1);
    assert!(pool.running < pool.max_parallelism);
}

#[test]
fn reap_flushes_captured_output_in_tracking_order() {
    let mut pool = append_pool(1, 1, 3);
    for tok in ["a", "b", "c"] {
        assert!(pool.push_arg(tok));
        pool.prepare_spawn();
        pool.note_spawned();
    }
    let outcomes = vec![
        PollOutcome::Exited(Some("first\n".to_string())),
        PollOutcome::StillRunning,
        PollOutcome::Exited(Some("third\n".to_string())),
    ];
    let flush = pool.reap(&outcomes);
    assert_eq!(flush, ["first\n", "third\n"]);
    assert_eq!(pool.running, 1);
}

#[test]
fn reap_skips_empty_output_and_poll_errors() {
    let mut pool = append_pool(1, 1, 3);
    for tok in ["a", "b", "c"] {
        assert!(pool.push_arg(tok));
        pool.prepare_spawn();
        pool.note_spawned();
    }
    let outcomes = vec![
        PollOutcome::Exited(Some(String::new())),
        PollOutcome::PollError,
        PollOutcome::Exited(None),
    ];
    let flush = pool.reap(&outcomes);
    assert!(flush.is_empty());
    assert_eq!(pool.running, 0);
}

#[test]
fn builder_state_getters_follow_the_builder() {
    let mut pool = append_pool(2, 1, 1);
    assert!(pool.builder_can_push());
    assert!(!pool.builder_viable());
    assert!(!pool.push_arg("a"));
    assert!(pool.builder_viable());
    assert!(pool.push_arg("b"));
    assert!(!pool.builder_can_push());
    let argv = pool.prepare_spawn();
    assert_eq!(argv, ["a", "b"]);
    assert!(pool.builder_can_push());
}

#[test]
fn program_selection_defaults_to_echo() {
    let (name, rest) = select_program(vec![]);
    assert_eq!(name, "echo");
    assert!(rest.is_empty());
    let (name, rest) = select_program(vec!["ls".to_string(), "-l".to_string()]);
    assert_eq!(name, "ls");
    assert_eq!(rest, ["-l"]);
}

#[test]
fn initial_args_prefix_every_spawn() {
    let maker = DynArgBuilderMaker {
        is_template: false,
        initial_args: vec!["-n".into(), "1".into()],
        max_args: 1,
        min_args: 1,
    };
    let mut pool = ProcPool::new("head".to_string(), maker, 1, true);
    assert!(pool.push_arg("file"));
    assert_eq!(pool.prepare_spawn(), ["-n", "1", "file"]);
}
