use squish::jobs::{Job, JobManager};

fn job(id: usize, command: &str, child: Option<u32>) -> Job {
    Job { id, command: command.to_string(), child }
}

#[test]
fn jobs_new_table_is_empty() {
    let t = JobManager::new();
    assert!(t.list_jobs().is_empty());
    assert!(t.has_room());
}

#[test]
fn jobs_ids_start_at_one_and_increase() {
    let mut t = JobManager::new();
    assert_eq!(t.add_job("sleep 5".to_string(), 100), 1);
    assert_eq!(t.add_job("sleep 6".to_string(), 101), 2);
    assert_eq!(t.add_job("sleep 7".to_string(), 102), 3);
    assert_eq!(
        t.list_jobs(),
        &vec![job(1, "sleep 5", Some(100)), job(2, "sleep 6", Some(101)), job(3, "sleep 7", Some(102))]
    );
}

#[test]
fn jobs_ids_are_not_reused_after_a_sweep() {
    let mut t = JobManager::new();
    assert_eq!(t.add_job("a".to_string(), 10), 1);
    assert_eq!(t.add_job("b".to_string(), 11), 2);
    t.remove_finished(&vec![10, 11]);
    assert!(t.list_jobs().is_empty());
    assert_eq!(t.add_job("c".to_string(), 12), 3);
    t.remove_finished(&vec![12]);
    assert_eq!(t.add_job("d".to_string(), 10), 4);
    assert_eq!(t.list_jobs(), &vec![job(4, "d", Some(10))]);
}

#[test]
fn jobs_sweep_keeps_running_jobs_in_order() {
    let mut t = JobManager::new();
    t.add_job("a".to_string(), 10);
    t.add_job("b".to_string(), 11);
    t.add_job("c".to_string(), 12);
    t.add_job("d".to_string(), 13);
    t.remove_finished(&vec![11, 99]);
    assert_eq!(t.list_jobs(), &vec![job(1, "a", Some(10)), job(3, "c", Some(12)), job(4, "d", Some(13))]);
    t.remove_finished(&vec![]);
    assert_eq!(t.list_jobs().len(), 3);
}

#[test]
fn jobs_get_by_id() {
    let mut t = JobManager::new();
    t.add_job("a".to_string(), 10);
    t.add_job("b".to_string(), 11);
    assert_eq!(t.get_job(2), Some(&job(2, "b", Some(11))));
    assert_eq!(t.get_job(3), None);
    assert_eq!(t.get_job(0), None);
}

#[test]
fn jobs_take_child_leaves_the_job_for_the_next_sweep() {
    let mut t = JobManager::new();
    t.add_job("a".to_string(), 10);
    t.add_job("b".to_string(), 11);
    assert_eq!(t.take_child(1), Some(10));
    assert_eq!(t.list_jobs(), &vec![job(1, "a", None), job(2, "b", Some(11))]);
    assert_eq!(t.take_child(1), None);
    assert_eq!(t.take_child(7), None);
    t.remove_finished(&vec![]);
    assert_eq!(t.list_jobs(), &vec![job(2, "b", Some(11))]);
}
