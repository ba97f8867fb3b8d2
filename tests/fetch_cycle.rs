use hn::{aggregate, take_candidates, Dispatcher};

#[test]
fn take_candidates_truncates_to_the_limit() {
    assert_eq!(take_candidates(vec![5, 4, 3, 2, 1], 3), vec![5, 4, 3]);
}

#[test]
fn take_candidates_never_pads() {
    assert_eq!(take_candidates(vec![5, 4], 50), vec![5, 4]);
    assert_eq!(take_candidates(vec![], 50), Vec::<i64>::new());
}

#[test]
fn take_candidates_with_limit_zero_is_empty() {
    assert_eq!(take_candidates(vec![1, 2, 3], 0), Vec::<i64>::new());
}

#[test]
fn dispatcher_hands_out_each_index_once() {
    let mut d = Dispatcher::new(3);
    assert_eq!(d.claim_next(), Some(0));
    assert_eq!(d.claim_next(), Some(1));
    assert_eq!(d.claim_next(), Some(2));
    assert_eq!(d.claim_next(), None);
    assert_eq!(d.claim_next(), None);
}

#[test]
fn dispatcher_over_no_indices_refuses_at_once() {
    let mut d = Dispatcher::new(0);
    assert_eq!(d.claim_next(), None);
}

#[test]
fn interleaved_workers_claim_every_index_exactly_once() {
    // Three workers take turns in an irregular order until each is refused.
    let n = 7;
    let w = 3;
    let mut d = Dispatcher::new(n);
    let order = [0usize, 2, 2, 1, 0, 0, 2, 1, 1, 0, 2, 1];
    let mut done = vec![false; w];
    let mut claimed: Vec<Vec<usize>> = vec![Vec::new(); w];
    for &worker in order.iter() {
        if done[worker] {
            continue;
        }
        match d.claim_next() {
            Some(i) => claimed[worker].push(i),
            None => done[worker] = true,
        }
    }
    assert!(done.iter().all(|&x| x));
    let mut all: Vec<usize> = claimed.iter().flatten().copied().collect();
    all.sort();
    assert_eq!(all, (0..n).collect::<Vec<_>>());
}

#[test]
fn aggregate_restores_rank_order() {
    let outcomes: Vec<(usize, Result<&str, ()>)> = vec![(2, Ok("c")), (0, Ok("a")), (1, Ok("b"))];
    assert_eq!(aggregate(3, outcomes), vec!["a", "b", "c"]);
}

#[test]
fn aggregate_leaves_out_a_single_failure() {
    // ids [1, 2, 3], the fetch of id 2 fails
    let outcomes: Vec<(usize, Result<i64, String>)> =
        vec![(2, Ok(3)), (1, Err(String::from("500"))), (0, Ok(1))];
    assert_eq!(aggregate(3, outcomes), vec![1, 3]);
}

#[test]
fn aggregate_with_every_task_failed_is_empty() {
    let outcomes: Vec<(usize, Result<i64, &str>)> = vec![(1, Err("x")), (0, Err("y"))];
    assert_eq!(aggregate(2, outcomes), Vec::<i64>::new());
}

#[test]
fn aggregate_of_no_tasks_is_empty() {
    let outcomes: Vec<(usize, Result<i64, ()>)> = Vec::new();
    assert_eq!(aggregate(0, outcomes), Vec::<i64>::new());
}

#[test]
fn cycle_length_is_the_smaller_of_list_and_limit() {
    let ids = take_candidates(vec![10, 20, 30, 40], 3);
    let mut d = Dispatcher::new(ids.len());
    let mut outcomes = Vec::new();
    while let Some(i) = d.claim_next() {
        outcomes.push((i, Ok::<i64, ()>(ids[i] * 2)));
    }
    outcomes.reverse();
    assert_eq!(aggregate(ids.len(), outcomes), vec![20, 40, 60]);
}

#[test]
fn cycle_with_a_failure_is_shorter() {
    let ids = take_candidates(vec![10, 20, 30, 40], 10);
    let outcomes: Vec<(usize, Result<i64, ()>)> =
        vec![(3, Ok(40)), (0, Ok(10)), (2, Err(())), (1, Ok(20))];
    let stories = aggregate(ids.len(), outcomes);
    assert_eq!(stories, vec![10, 20, 40]);
    assert!(stories.len() < ids.len());
}
