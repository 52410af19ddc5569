use testllm::run::{progress_percent, Run};
use testllm::schedule::{plan_tasks, pool_capacity, Phase, Scheduler, Step, TaskSlot};
use testllm::task::{failed_output, scored_output, Entry, ModelConfig, OutputEntry, TaskError};

fn entry(n: usize) -> Entry {
    Entry {
        system_prompt: format!("system {n}"),
        user_prompt: format!("user {n}"),
        expected_answer: format!("answer {n}"),
    }
}

fn model(n: usize) -> ModelConfig {
    ModelConfig {
        base_url: format!("https://model{n}.example/v1"),
        model_name: format!("model-{n}"),
        api_key: Some("SECRET-REDACTED".to_string()),
    }
}

fn row(e: &Entry, m: &ModelConfig) -> OutputEntry {
    scored_output(e, m, "answer".to_string(), Ok(500_000), None)
}

#[test]
fn progress_rounds_down() {
    assert_eq!(progress_percent(0, 3), 0);
    assert_eq!(progress_percent(1, 3), 33);
    assert_eq!(progress_percent(2, 3), 66);
    assert_eq!(progress_percent(3, 3), 100);
    assert_eq!(progress_percent(0, 0), 100);
}

#[test]
fn progress_is_monotone_and_full_only_at_the_end() {
    let total = 7;
    let mut run = Run::new(total);
    let mut last = run.progress();
    assert_eq!(last, 0);
    for k in 0..total {
        let p = run.record(row(&entry(k), &model(0)));
        assert!(p >= last);
        if k + 1 < total {
            assert!(p < 100);
        } else {
            assert_eq!(p, 100);
        }
        last = p;
    }
    assert!(run.finalize());
    assert!(run.is_finished());
    assert_eq!(run.outputs().len(), total);
}

#[test]
fn finalize_refuses_an_incomplete_run() {
    let mut run = Run::new(2);
    run.record(row(&entry(0), &model(0)));
    assert!(!run.finalize());
    assert!(!run.is_finished());
    run.record(row(&entry(1), &model(0)));
    assert!(run.finalize());
}

#[test]
fn plan_covers_every_pair_model_by_model() {
    let plan = plan_tasks(3, 2);
    assert_eq!(plan.len(), 6);
    assert_eq!(plan[0], TaskSlot { entry: 0, model: 0 });
    assert_eq!(plan[2], TaskSlot { entry: 2, model: 0 });
    assert_eq!(plan[3], TaskSlot { entry: 0, model: 1 });
    assert_eq!(plan[5], TaskSlot { entry: 2, model: 1 });
    assert!(plan_tasks(0, 4).is_empty());
    assert!(plan_tasks(4, 0).is_empty());
}

#[test]
fn pool_capacity_is_sixteen_per_thread() {
    assert_eq!(pool_capacity(0), 1);
    assert_eq!(pool_capacity(1), 16);
    assert_eq!(pool_capacity(8), 128);
    assert_eq!(pool_capacity(usize::MAX), usize::MAX);
}

#[test]
fn empty_input_finishes_at_once() {
    let mut s = Scheduler::new(0, 3, 4);
    assert_eq!(s.run().progress(), 100);
    assert!(matches!(s.next_step(), Step::Finished));
    assert!(s.run().is_finished());
    assert!(s.into_outputs().is_empty());

    let mut s = Scheduler::new(5, 0, 4);
    assert!(matches!(s.next_step(), Step::Finished));
    assert_eq!(s.run().progress(), 100);
}

#[test]
fn two_entries_two_models_without_judge() {
    let entries = vec![entry(0), entry(1)];
    let models = vec![model(0), model(1)];
    let mut s = Scheduler::new(2, 2, 16);
    let mut started = Vec::new();
    loop {
        match s.next_step() {
            Step::Dispatch(slot) => started.push(slot),
            Step::Wait => panic!("nothing is in flight"),
            Step::Finished => break,
        }
        if started.len() == 4 {
            for slot in started.iter() {
                assert!(!s.run().is_finished());
                s.complete(*slot, row(&entries[slot.entry], &models[slot.model]));
            }
        }
    }
    assert!(s.run().is_finished());
    let out = s.into_outputs();
    assert_eq!(out.len(), 4);
    for o in out.iter() {
        assert!(o.judge_score.is_none());
        assert!(o.judge_reason.is_none());
        assert!(o.error.is_none());
    }
}

#[test]
fn capacity_bounds_tasks_in_flight() {
    let mut s = Scheduler::new(3, 1, 2);
    assert_eq!(s.phase(), Phase::Dispatching);
    let first = TaskSlot { entry: 0, model: 0 };
    let second = TaskSlot { entry: 1, model: 0 };
    let third = TaskSlot { entry: 2, model: 0 };
    assert!(matches!(s.next_step(), Step::Dispatch(x) if x == first));
    assert!(matches!(s.next_step(), Step::Dispatch(x) if x == second));
    assert!(matches!(s.next_step(), Step::Wait));
    assert_eq!(s.in_flight(), 2);
    assert!(s.is_pending(second));
    assert!(!s.is_pending(third));
    let p = s.complete(second, row(&entry(1), &model(0)));
    assert_eq!(p, 33);
    assert!(!s.is_pending(second));
    assert!(matches!(s.next_step(), Step::Dispatch(x) if x == third));
    assert_eq!(s.phase(), Phase::Draining);
    assert!(matches!(s.next_step(), Step::Wait));
    s.complete(first, row(&entry(0), &model(0)));
    assert!(matches!(s.next_step(), Step::Wait));
    assert!(!s.run().is_finished());
    assert_eq!(s.complete(third, row(&entry(2), &model(0))), 100);
    assert_eq!(s.phase(), Phase::Draining);
    assert!(matches!(s.next_step(), Step::Finished));
    assert_eq!(s.phase(), Phase::Finalized);
}

#[test]
fn a_timed_out_call_is_recorded_and_the_run_finishes() {
    let entries = vec![entry(0), entry(1)];
    let models = vec![model(0), model(1)];
    let mut s = Scheduler::new(2, 2, 16);
    let mut slots = Vec::new();
    while let Step::Dispatch(slot) = s.next_step() {
        slots.push(slot);
    }
    assert_eq!(slots.len(), 4);
    for slot in slots.iter() {
        let e = &entries[slot.entry];
        let m = &models[slot.model];
        let out = if slot.entry == 1 && slot.model == 0 {
            failed_output(e, m, TaskError::Timeout)
        } else {
            row(e, m)
        };
        s.complete(*slot, out);
    }
    assert!(matches!(s.next_step(), Step::Finished));
    let out = s.into_outputs();
    assert_eq!(out.len(), 4);
    let failed: Vec<&OutputEntry> = out.iter().filter(|o| o.error.is_some()).collect();
    assert_eq!(failed.len(), 1);
    assert!(matches!(failed[0].error, Some(TaskError::Timeout)));
    assert_eq!(failed[0].user_prompt, "user 1");
    assert_eq!(failed[0].model_name, "model-0");
    assert_eq!(failed[0].actual_answer, "");
    assert_eq!(out.iter().filter(|o| o.error.is_none() && o.actual_answer == "answer").count(), 3);
}
