use parallel::{collect, conclude, fan_out, ParallelError, Step};

#[derive(Debug, PartialEq)]
enum Value {
    Number(i32),
    Text(&'static str),
    Flag(bool),
}

fn run_all<R>(jobs: Vec<Box<dyn Fn() -> Option<R>>>) -> (usize, Result<Vec<R>, ParallelError>) {
    let mut forked: Vec<bool> = vec![false; jobs.len()];
    let mut outcomes: Vec<Option<R>> = Vec::new();
    for _ in 0..jobs.len() {
        outcomes.push(None);
    }
    let mut threads: usize = 0;
    for step in fan_out(jobs.len()) {
        match step {
            Step::Fork(i) => {
                assert!(!forked[i]);
                forked[i] = true;
                threads += 1;
            }
            Step::Run(i) => {
                assert!(!forked[i]);
                outcomes[i] = jobs[i]();
            }
            Step::Join(i) => {
                assert!(forked[i]);
                forked[i] = false;
                outcomes[i] = jobs[i]();
            }
        }
    }
    assert!(forked.iter().all(|f| !f));
    (threads, collect(outcomes))
}

#[test]
fn empty() {
    assert_eq!(fan_out(0), Vec::<Step>::new());
    let (threads, result) = run_all::<()>(Vec::new());
    assert_eq!(threads, 0);
    assert_eq!(result, Ok(Vec::new()));
}

#[test]
fn no_spawn() {
    assert_eq!(fan_out(1), vec![Step::Run(0)]);
    let (threads, result) = run_all(vec![Box::new(|| Some(println!("Hello world!"))) as Box<dyn Fn() -> Option<()>>]);
    assert_eq!(threads, 0);
    assert_eq!(result, Ok(vec![()]));
}

#[test]
fn fan_out_of_three_jobs() {
    assert_eq!(
        fan_out(3),
        vec![Step::Fork(1), Step::Fork(2), Step::Run(0), Step::Join(1), Step::Join(2)]
    );
}

#[test]
fn fan_out_of_two_jobs() {
    assert_eq!(fan_out(2), vec![Step::Fork(1), Step::Run(0), Step::Join(1)]);
}

#[test]
fn fan_out_joins_every_fork_in_order() {
    for jobs in 0..20usize {
        let steps = fan_out(jobs);
        let forks: Vec<usize> =
            steps.iter().filter_map(|s| if let Step::Fork(i) = s { Some(*i) } else { None }).collect();
        let joins: Vec<usize> =
            steps.iter().filter_map(|s| if let Step::Join(i) = s { Some(*i) } else { None }).collect();
        let runs: Vec<usize> =
            steps.iter().filter_map(|s| if let Step::Run(i) = s { Some(*i) } else { None }).collect();
        assert_eq!(forks, (1..jobs).collect::<Vec<usize>>());
        assert_eq!(joins, forks);
        assert_eq!(runs, if jobs == 0 { vec![] } else { vec![0] });
        let last_fork = steps.iter().rposition(|s| matches!(s, Step::Fork(_)));
        let first_join = steps.iter().position(|s| matches!(s, Step::Join(_)));
        if let (Some(f), Some(j)) = (last_fork, first_join) {
            assert!(f < j);
        }
    }
}

#[test]
fn three_jobs_give_an_ordered_result() {
    let jobs: Vec<Box<dyn Fn() -> Option<Value>>> = vec![
        Box::new(|| Some(Value::Number(1))),
        Box::new(|| Some(Value::Text("a"))),
        Box::new(|| Some(Value::Flag(true))),
    ];
    let (threads, result) = run_all(jobs);
    assert_eq!(threads, 2);
    assert_eq!(result, Ok(vec![Value::Number(1), Value::Text("a"), Value::Flag(true)]));
}

#[test]
fn collect_keeps_the_order_of_the_jobs() {
    assert_eq!(collect(vec![Some(3), Some(1), Some(2)]), Ok(vec![3, 1, 2]));
    assert_eq!(collect(Vec::<Option<u8>>::new()), Ok(Vec::new()));
}

#[test]
fn a_failed_job_fails_the_list() {
    let jobs: Vec<Box<dyn Fn() -> Option<Value>>> = vec![
        Box::new(|| Some(Value::Number(1))),
        Box::new(|| None),
        Box::new(|| Some(Value::Flag(true))),
    ];
    let (threads, result) = run_all(jobs);
    assert_eq!(threads, 2);
    assert_eq!(result, Err(ParallelError::WorkerFailure { failed: vec![1] }));
}

#[test]
fn collect_names_every_failed_job() {
    assert_eq!(
        collect(vec![None, Some(1), None, None, Some(5)]),
        Err(ParallelError::WorkerFailure { failed: vec![0, 2, 3] })
    );
    assert_eq!(collect(vec![None::<u8>]), Err(ParallelError::WorkerFailure { failed: vec![0] }));
}

#[test]
fn conclude_succeeds_when_every_worker_did() {
    assert_eq!(conclude(&vec![]), Ok(()));
    assert_eq!(conclude(&vec![true]), Ok(()));
    assert_eq!(conclude(&vec![true, true, true]), Ok(()));
}

#[test]
fn conclude_fails_when_a_worker_failed() {
    assert_eq!(
        conclude(&vec![true, false, true]),
        Err(ParallelError::WorkerFailure { failed: vec![1] })
    );
    assert_eq!(conclude(&vec![false]), Err(ParallelError::WorkerFailure { failed: vec![0] }));
}

#[test]
fn conclude_names_every_failed_worker() {
    assert_eq!(
        conclude(&vec![false, true, false, false]),
        Err(ParallelError::WorkerFailure { failed: vec![0, 2, 3] })
    );
}

#[test]
fn errors_differ() {
    assert_ne!(ParallelError::InvalidGranularity, ParallelError::WorkerFailure { failed: vec![0] });
    assert_ne!(
        ParallelError::WorkerFailure { failed: vec![0] },
        ParallelError::WorkerFailure { failed: vec![1] }
    );
    assert_eq!(format!("{:?}", ParallelError::InvalidGranularity), "InvalidGranularity");
}
