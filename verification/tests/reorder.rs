use twodo::objects::Task;
use twodo::reorder::{ids_unique, reorder_tasks};

fn task(parent_id: Option<i64>, id: i64) -> Task {
    Task {
        id,
        title: "test reorder".to_string(),
        description: None,
        done: false,
        project_id: 1,
        parent_id,
    }
}

fn pairs(tasks: &[Task]) -> Vec<(Option<i64>, i64)> {
    tasks.iter().map(|t| (t.parent_id, t.id)).collect()
}

#[test]
fn test_reorder_tasks() {
    // -- Setup & Fixtures
    let parent_id_task_id = [
        (None, 1),
        (Some(1), 2),
        (Some(2), 5),
        (Some(3), 4),
        (Some(7), 8),
        (Some(5), 6),
        (Some(2), 7),
        (Some(2), 3),
        (Some(7), 9),
    ];
    let original_tasks: Vec<Task> = parent_id_task_id
        .into_iter()
        .map(|(parent_id, id)| task(parent_id, id))
        .collect();

    // -- Exec
    let (reordered_tasks, actual_depth) = reorder_tasks(original_tasks);

    // -- Check
    let expected = [
        (None, 1),
        (Some(1), 2),
        (Some(2), 3),
        (Some(3), 4),
        (Some(2), 7),
        (Some(7), 9),
        (Some(7), 8),
        (Some(2), 5),
        (Some(5), 6),
    ];
    let expected_depth = [0, 1, 2, 3, 2, 3, 3, 2, 3];
    let mut visited_task_ids = std::collections::HashSet::new();
    for (parent_id, task_id) in expected {
        assert!(visited_task_ids.insert(task_id));
        if let Some(parent_id) = parent_id {
            assert!(visited_task_ids.contains(&parent_id));
        }
    }
    let actual = pairs(&reordered_tasks);
    assert_eq!(expected, actual.as_slice());
    assert_eq!(expected_depth, actual_depth.as_slice());
}

#[test]
fn reorder_scenario_depths() {
    // Children of node 2 are [3, 5] in input order, so 5's subtree is
    // emitted before 3.
    let input = vec![
        task(None, 1),
        task(Some(1), 2),
        task(Some(2), 3),
        task(Some(2), 5),
        task(Some(5), 6),
    ];
    let (out, depths) = reorder_tasks(input);
    let ids: Vec<i64> = out.iter().map(|t| t.id).collect();
    assert_eq!(ids, vec![1, 2, 5, 6, 3]);
    assert_eq!(depths, vec![0, 1, 2, 3, 2]);
}

#[test]
fn reorder_empty_input() {
    let (out, depths) = reorder_tasks(Vec::new());
    assert!(out.is_empty());
    assert!(depths.is_empty());
}

#[test]
fn reorder_missing_parent_is_root() {
    // A task whose parent id is absent from the set is kept as a root
    // rather than dropped.
    let input = vec![task(Some(99), 7), task(Some(7), 8)];
    let (out, depths) = reorder_tasks(input);
    let ids: Vec<i64> = out.iter().map(|t| t.id).collect();
    assert_eq!(ids, vec![7, 8]);
    assert_eq!(depths, vec![0, 1]);
}

#[test]
fn reorder_multiple_roots_reversed() {
    // Roots are also visited last-in-first-out, so they come out in
    // reverse input order.
    let input = vec![task(None, 10), task(None, 20), task(None, 30)];
    let (out, depths) = reorder_tasks(input);
    let ids: Vec<i64> = out.iter().map(|t| t.id).collect();
    assert_eq!(ids, vec![30, 20, 10]);
    assert_eq!(depths, vec![0, 0, 0]);
}

#[test]
fn reorder_permutation_of_input() {
    let input = vec![
        task(None, 4),
        task(Some(4), 2),
        task(None, 9),
        task(Some(9), 1),
        task(Some(4), 3),
    ];
    let input_ids: std::collections::HashSet<i64> = input.iter().map(|t| t.id).collect();
    let (out, depths) = reorder_tasks(input);
    let out_ids: std::collections::HashSet<i64> = out.iter().map(|t| t.id).collect();
    assert_eq!(out.len(), 5);
    assert_eq!(depths.len(), 5);
    assert_eq!(input_ids, out_ids);
}

#[test]
fn reorder_keeps_whole_records() {
    let mut t = task(None, 42);
    t.title = "unchanged title".to_string();
    t.description = Some("unchanged description".to_string());
    t.done = true;
    t.project_id = 7;
    let (out, depths) = reorder_tasks(vec![t]);
    assert_eq!(out.len(), 1);
    assert_eq!(depths, vec![0]);
    assert_eq!(out[0].id, 42);
    assert_eq!(out[0].title, "unchanged title");
    assert_eq!(out[0].description.as_deref(), Some("unchanged description"));
    assert!(out[0].done);
    assert_eq!(out[0].project_id, 7);
}

#[test]
fn reorder_chain_is_fixed_point() {
    // On a single chain a second run keeps the order: re-running the
    // engine on its own output changes nothing.
    let input = vec![task(Some(1), 2), task(None, 1), task(Some(2), 3)];
    let (out1, depths1) = reorder_tasks(input);
    let ids1: Vec<i64> = out1.iter().map(|t| t.id).collect();
    assert_eq!(ids1, vec![1, 2, 3]);
    assert_eq!(depths1, vec![0, 1, 2]);
    let (out2, depths2) = reorder_tasks(out1);
    let ids2: Vec<i64> = out2.iter().map(|t| t.id).collect();
    assert_eq!(ids2, vec![1, 2, 3]);
    assert_eq!(depths2, vec![0, 1, 2]);
}

#[test]
fn reorder_rerun_reverses_siblings_again() {
    // With two siblings the reversal shows on every run, so a second
    // run restores the original sibling order instead of keeping the
    // first run's: the engine is not idempotent on such inputs.
    let input = vec![task(None, 1), task(Some(1), 2), task(Some(1), 3)];
    let (out1, _) = reorder_tasks(input);
    let ids1: Vec<i64> = out1.iter().map(|t| t.id).collect();
    assert_eq!(ids1, vec![1, 3, 2]);
    let (out2, _) = reorder_tasks(out1);
    let ids2: Vec<i64> = out2.iter().map(|t| t.id).collect();
    assert_eq!(ids2, vec![1, 2, 3]);
}

#[test]
fn ids_unique_detects_duplicates() {
    assert!(ids_unique(&vec![task(None, 1), task(None, 2)]));
    assert!(!ids_unique(&vec![task(None, 1), task(None, 1)]));
    assert!(ids_unique(&Vec::new()));
}

#[test]
fn reorder_descendants_are_contiguous() {
    // Every task's descendants form one block immediately after it.
    let input = vec![
        task(None, 1),
        task(Some(1), 2),
        task(Some(2), 5),
        task(Some(3), 4),
        task(Some(7), 8),
        task(Some(5), 6),
        task(Some(2), 7),
        task(Some(2), 3),
        task(Some(7), 9),
    ];
    let parent_of: std::collections::HashMap<i64, Option<i64>> =
        input.iter().map(|t| (t.id, t.parent_id)).collect();
    let descends = |mut id: i64, anc: i64| -> bool {
        loop {
            match parent_of.get(&id).copied().flatten() {
                Some(p) if p == anc => return true,
                Some(p) => id = p,
                None => return false,
            }
        }
    };
    let (out, _) = reorder_tasks(input);
    let ids: Vec<i64> = out.iter().map(|t| t.id).collect();
    for (m, &a) in ids.iter().enumerate() {
        let block: Vec<usize> = (0..ids.len()).filter(|&q| descends(ids[q], a)).collect();
        // The descendant positions are exactly m+1 .. m+block.len().
        let expected: Vec<usize> = (m + 1..m + 1 + block.len()).collect();
        assert_eq!(block, expected, "descendants of {a} are not contiguous");
    }
}
