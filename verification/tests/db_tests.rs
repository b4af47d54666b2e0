use flo::model::{CreateSample, CreateTask, Task, UpdateTask};
use flo::store::{StoreError, TaskStore};

fn add(store: &mut TaskStore, parent: Option<&str>, title: &str, notes: &str) -> Task {
    store
        .create_task(&CreateTask {
            parent_id: parent.map(|p| p.to_string()),
            title: title.to_string(),
            notes: notes.to_string(),
        })
        .unwrap()
}

#[test]
fn empty_db_creates_fresh_schema() {
    let store = TaskStore::new();
    assert!(store.get_children(None).is_empty());
}

#[test]
fn create_and_get_task() {
    let mut store = TaskStore::new();
    let task = add(&mut store, None, "test task", "some notes");
    assert_eq!(task.title, "test task");
    assert_eq!(task.notes, "some notes");
    assert!(!task.completed);
    assert!(task.parent_id.is_none());

    let fetched = store.get_task(&task.id).unwrap();
    assert_eq!(fetched.id, task.id);
    assert_eq!(fetched.title, "test task");
}

#[test]
fn create_task_with_empty_title() {
    let mut store = TaskStore::new();
    let task = add(&mut store, None, "", "");
    assert_eq!(task.title, "");
}

#[test]
fn create_task_with_unicode() {
    let mut store = TaskStore::new();
    let task = add(&mut store, None, "买菜 🛒 café résumé", "日本語のノート\n\temoji: 🎉🔥");
    assert_eq!(task.title, "买菜 🛒 café résumé");
    assert!(task.notes.contains("🎉🔥"));
}

#[test]
fn create_task_with_long_title() {
    let mut store = TaskStore::new();
    let long_title = "a".repeat(10_000);
    let task = add(&mut store, None, &long_title, "");
    assert_eq!(task.title.len(), 10_000);
}

#[test]
fn create_task_with_special_chars() {
    let mut store = TaskStore::new();
    let task = add(
        &mut store,
        None,
        r#"title with "quotes" and 'apostrophes' and \backslash"#,
        "notes with\nnewlines\tand\ttabs",
    );
    assert!(task.title.contains("\"quotes\""));
    assert!(task.notes.contains("\n"));
}

#[test]
fn create_task_multiline_notes() {
    let mut store = TaskStore::new();
    let notes = "# Heading\n\n- bullet 1\n- bullet 2\n\n```rust\nfn main() {}\n```";
    let task = add(&mut store, None, "has markdown", notes);
    assert_eq!(task.notes, notes);
}

#[test]
fn get_nonexistent_task_fails() {
    let store = TaskStore::new();
    let result = store.get_task("nonexistent-id");
    assert!(result.is_err());
}

#[test]
fn task_has_ulid_format_id() {
    let mut store = TaskStore::new();
    let task = add(&mut store, None, "check id", "");
    assert_eq!(task.id.len(), 26);
    assert!(task.id.chars().all(|c| c.is_ascii_alphanumeric()));
}

#[test]
fn task_has_timestamps() {
    let mut store = TaskStore::new();
    let task = add(&mut store, None, "check timestamps", "");
    assert!(!task.created_at.is_empty());
    assert!(!task.updated_at.is_empty());
    assert_eq!(task.created_at, task.updated_at);
}

#[test]
fn task_ids_are_unique() {
    let mut store = TaskStore::new();
    let mut ids = std::collections::HashSet::new();
    for i in 0..50 {
        let task = add(&mut store, None, &format!("task {}", i), "");
        assert!(ids.insert(task.id), "duplicate task ID generated");
    }
}

#[test]
fn create_child_task() {
    let mut store = TaskStore::new();
    let parent = add(&mut store, None, "parent", "");
    let child = add(&mut store, Some(&parent.id), "child", "");
    assert_eq!(child.parent_id.as_deref(), Some(parent.id.as_str()));
    let children = store.get_children(Some(&parent.id));
    assert_eq!(children.len(), 1);
    assert_eq!(children[0].id, child.id);
}

#[test]
fn deeply_nested_hierarchy() {
    let mut store = TaskStore::new();
    let mut parent_id: Option<String> = None;
    let mut ids = Vec::new();
    for i in 0..10 {
        let task = add(&mut store, parent_id.as_deref(), &format!("level {}", i), "");
        ids.push(task.id.clone());
        parent_id = Some(task.id);
    }
    for (i, id) in ids.iter().enumerate() {
        let task = store.get_task(id).unwrap();
        if i == 0 {
            assert!(task.parent_id.is_none());
        } else {
            assert_eq!(task.parent_id.as_deref(), Some(ids[i - 1].as_str()));
        }
    }
}

#[test]
fn get_children_empty() {
    let mut store = TaskStore::new();
    let task = add(&mut store, None, "lonely", "");
    assert!(store.get_children(Some(&task.id)).is_empty());
}

#[test]
fn get_children_of_root() {
    let mut store = TaskStore::new();
    for i in 0..5 {
        add(&mut store, None, &format!("root {}", i), "");
    }
    assert_eq!(store.get_children(None).len(), 5);
}

#[test]
fn multiple_children_same_parent() {
    let mut store = TaskStore::new();
    let parent = add(&mut store, None, "parent", "");
    for i in 0..10 {
        add(&mut store, Some(&parent.id), &format!("child {}", i), "");
    }
    assert_eq!(store.get_children(Some(&parent.id)).len(), 10);
}

#[test]
fn get_task_with_children() {
    let mut store = TaskStore::new();
    let parent = add(&mut store, None, "parent", "");
    add(&mut store, Some(&parent.id), "child A", "");
    add(&mut store, Some(&parent.id), "child B", "");
    let tw = store.get_task_with_children(&parent.id).unwrap();
    assert_eq!(tw.task.title, "parent");
    assert_eq!(tw.children.len(), 2);
}

#[test]
fn update_task_title() {
    let mut store = TaskStore::new();
    let task = add(&mut store, None, "original", "");
    let mut u = UpdateTask::empty();
    u.title = Some("renamed".to_string());
    let updated = store.update_task(&task.id, &u).unwrap();
    assert_eq!(updated.title, "renamed");
    assert_eq!(updated.notes, "");
    assert!(!updated.completed);
}

#[test]
fn update_task_notes() {
    let mut store = TaskStore::new();
    let task = add(&mut store, None, "t", "");
    let mut u = UpdateTask::empty();
    u.notes = Some("new notes".to_string());
    let updated = store.update_task(&task.id, &u).unwrap();
    assert_eq!(updated.notes, "new notes");
    assert_eq!(updated.title, "t");
}

#[test]
fn update_task_completed() {
    let mut store = TaskStore::new();
    let task = add(&mut store, None, "t", "");
    assert!(!task.completed);
    let mut u = UpdateTask::empty();
    u.completed = Some(true);
    let updated = store.update_task(&task.id, &u).unwrap();
    assert!(updated.completed);
    let mut back = UpdateTask::empty();
    back.completed = Some(false);
    let toggled = store.update_task(&task.id, &back).unwrap();
    assert!(!toggled.completed);
}

#[test]
fn update_task_all_fields() {
    let mut store = TaskStore::new();
    let task = add(&mut store, None, "original", "");
    let mut u = UpdateTask::empty();
    u.title = Some("renamed".to_string());
    u.notes = Some("new notes".to_string());
    u.completed = Some(true);
    u.position = Some(99);
    let updated = store.update_task(&task.id, &u).unwrap();
    assert_eq!(updated.title, "renamed");
    assert_eq!(updated.notes, "new notes");
    assert!(updated.completed);
    assert_eq!(updated.position, 99);
}

#[test]
fn update_task_empty_update_preserves_fields() {
    let mut store = TaskStore::new();
    let task = add(&mut store, None, "keep me", "keep these");
    let updated = store.update_task(&task.id, &UpdateTask::empty()).unwrap();
    assert_eq!(updated.title, "keep me");
    assert_eq!(updated.notes, "keep these");
}

#[test]
fn update_task_updates_timestamp() {
    let mut store = TaskStore::new();
    let task = store
        .create_task_at(
            &CreateTask { parent_id: None, title: "t".to_string(), notes: String::new() },
            "01HZZZZZZZZZZZZZZZZZZZZZZZ".to_string(),
            "2024-05-01T10:00:00+00:00".to_string(),
        )
        .unwrap();
    let original_updated_at = task.updated_at.clone();
    let start = std::time::Instant::now();
    while start.elapsed() < std::time::Duration::from_millis(10) {}
    let mut u = UpdateTask::empty();
    u.title = Some("changed".to_string());
    let updated = store.update_task(&task.id, &u).unwrap();
    assert_ne!(updated.updated_at, original_updated_at);
    assert_eq!(updated.created_at, task.created_at);
}

#[test]
fn update_nonexistent_task_fails() {
    let mut store = TaskStore::new();
    let mut u = UpdateTask::empty();
    u.title = Some("nope".to_string());
    let result = store.update_task("nonexistent", &u);
    assert!(result.is_err());
}

#[test]
fn reparent_task() {
    let mut store = TaskStore::new();
    let a = add(&mut store, None, "A", "");
    let b = add(&mut store, None, "B", "");
    let mut u = UpdateTask::empty();
    u.parent_id = Some(a.id.clone());
    store.update_task(&b.id, &u).unwrap();
    let roots = store.get_children(None);
    assert_eq!(roots.len(), 1);
    assert_eq!(roots[0].title, "A");
    let children = store.get_children(Some(&a.id));
    assert_eq!(children.len(), 1);
    assert_eq!(children[0].title, "B");
}

#[test]
fn reparent_to_root_with_empty_string() {
    let mut store = TaskStore::new();
    let parent = add(&mut store, None, "parent", "");
    let child = add(&mut store, Some(&parent.id), "child", "");
    let mut u = UpdateTask::empty();
    u.parent_id = Some("".to_string());
    store.update_task(&child.id, &u).unwrap();
    assert_eq!(store.get_children(None).len(), 2);
}

#[test]
fn reparent_preserves_other_fields() {
    let mut store = TaskStore::new();
    let a = add(&mut store, None, "A", "");
    let b = add(&mut store, None, "B", "important notes");
    let mut u = UpdateTask::empty();
    u.parent_id = Some(a.id.clone());
    let updated = store.update_task(&b.id, &u).unwrap();
    assert_eq!(updated.title, "B");
    assert_eq!(updated.notes, "important notes");
}

#[test]
fn reparent_under_own_descendant_is_refused() {
    let mut store = TaskStore::new();
    let a = add(&mut store, None, "A", "");
    let b = add(&mut store, Some(&a.id), "B", "");
    let mut u = UpdateTask::empty();
    u.parent_id = Some(b.id.clone());
    assert_eq!(store.update_task(&a.id, &u).unwrap_err(), StoreError::WouldCycle);
    let mut own = UpdateTask::empty();
    own.parent_id = Some(a.id.clone());
    assert_eq!(store.update_task(&a.id, &own).unwrap_err(), StoreError::WouldCycle);
    let mut missing = UpdateTask::empty();
    missing.parent_id = Some("nope".to_string());
    assert_eq!(store.update_task(&a.id, &missing).unwrap_err(), StoreError::ParentNotFound);
}

#[test]
fn delete_leaf_task() {
    let mut store = TaskStore::new();
    let task = add(&mut store, None, "delete me", "");
    store.delete_task(&task.id);
    assert!(store.get_task(&task.id).is_err());
}

#[test]
fn delete_task_cascades() {
    let mut store = TaskStore::new();
    let parent = add(&mut store, None, "parent", "");
    let child = add(&mut store, Some(&parent.id), "child", "");
    let grandchild = add(&mut store, Some(&child.id), "grandchild", "");
    store.delete_task(&parent.id);
    assert!(store.get_task(&parent.id).is_err());
    assert!(store.get_task(&child.id).is_err());
    assert!(store.get_task(&grandchild.id).is_err());
}

#[test]
fn delete_middle_node_cascades_subtree() {
    let mut store = TaskStore::new();
    let root = add(&mut store, None, "root", "");
    let mid = add(&mut store, Some(&root.id), "mid", "");
    let leaf = add(&mut store, Some(&mid.id), "leaf", "");
    let sibling = add(&mut store, Some(&root.id), "sibling", "");
    store.delete_task(&mid.id);
    assert!(store.get_task(&mid.id).is_err());
    assert!(store.get_task(&leaf.id).is_err());
    assert!(store.get_task(&root.id).is_ok());
    assert!(store.get_task(&sibling.id).is_ok());
}

#[test]
fn delete_nonexistent_task_succeeds() {
    let mut store = TaskStore::new();
    add(&mut store, None, "stays", "");
    store.delete_task("nonexistent");
    assert_eq!(store.get_children(None).len(), 1);
}

#[test]
fn delete_unlinks_samples() {
    let mut store = TaskStore::new();
    let t = add(&mut store, None, "t", "");
    let s = store
        .create_sample(&CreateSample {
            response: "r".into(),
            prompt_type: "touch".into(),
            task_id: Some(t.id.clone()),
        })
        .unwrap();
    store.delete_task(&t.id);
    let kept = store.all_samples();
    assert_eq!(kept.len(), 1);
    assert_eq!(kept[0].id, s.id);
    assert!(kept[0].task_id.is_none());
}

#[test]
fn position_auto_increments() {
    let mut store = TaskStore::new();
    let t1 = add(&mut store, None, "first", "");
    let t2 = add(&mut store, None, "second", "");
    let t3 = add(&mut store, None, "third", "");
    assert!(t1.position < t2.position);
    assert!(t2.position < t3.position);
}

#[test]
fn children_ordered_by_position() {
    let mut store = TaskStore::new();
    let parent = add(&mut store, None, "parent", "");
    for i in 0..5 {
        add(&mut store, Some(&parent.id), &format!("child {}", i), "");
    }
    let children = store.get_children(Some(&parent.id));
    for i in 0..4 {
        assert!(children[i].position < children[i + 1].position);
    }
}

#[test]
fn position_swap_reorders() {
    let mut store = TaskStore::new();
    let t1 = add(&mut store, None, "first", "");
    let t2 = add(&mut store, None, "second", "");
    let pos1 = t1.position;
    let pos2 = t2.position;
    let mut u1 = UpdateTask::empty();
    u1.position = Some(pos2);
    store.update_task(&t1.id, &u1).unwrap();
    let mut u2 = UpdateTask::empty();
    u2.position = Some(pos1);
    store.update_task(&t2.id, &u2).unwrap();
    let tasks = store.get_children(None);
    assert_eq!(tasks[0].title, "second");
    assert_eq!(tasks[1].title, "first");
}

#[test]
fn sibling_positions_independent_across_parents() {
    let mut store = TaskStore::new();
    let p1 = add(&mut store, None, "parent 1", "");
    let p2 = add(&mut store, None, "parent 2", "");
    let c1 = add(&mut store, Some(&p1.id), "child of p1", "");
    let c2 = add(&mut store, Some(&p2.id), "child of p2", "");
    assert_eq!(c1.position, 0);
    assert_eq!(c2.position, 0);
}

#[test]
fn get_ancestors_single_root() {
    let mut store = TaskStore::new();
    let task = add(&mut store, None, "root", "");
    let ancestors = store.get_ancestors(&task.id);
    assert_eq!(ancestors.len(), 1);
    assert_eq!(ancestors[0].id, task.id);
}

#[test]
fn get_ancestors_deep_chain() {
    let mut store = TaskStore::new();
    let root = add(&mut store, None, "root", "");
    let mid = add(&mut store, Some(&root.id), "mid", "");
    let leaf = add(&mut store, Some(&mid.id), "leaf", "");
    let ancestors = store.get_ancestors(&leaf.id);
    assert_eq!(ancestors.len(), 3);
    assert_eq!(ancestors[0].title, "root");
    assert_eq!(ancestors[1].title, "mid");
    assert_eq!(ancestors[2].title, "leaf");
}

#[test]
fn get_subtree_single_node() {
    let mut store = TaskStore::new();
    let task = add(&mut store, None, "alone", "");
    let subtree = store.get_subtree(&task.id);
    assert_eq!(subtree.len(), 1);
    assert_eq!(subtree[0].title, "alone");
}

#[test]
fn get_subtree_full_tree() {
    let mut store = TaskStore::new();
    let root = add(&mut store, None, "root", "");
    let a = add(&mut store, Some(&root.id), "A", "");
    add(&mut store, Some(&root.id), "B", "");
    add(&mut store, Some(&a.id), "A1", "");
    add(&mut store, Some(&a.id), "A2", "");
    let subtree = store.get_subtree(&root.id);
    assert_eq!(subtree.len(), 5);
    assert_eq!(subtree[0].title, "root");
}

#[test]
fn get_subtree_from_middle() {
    let mut store = TaskStore::new();
    let root = add(&mut store, None, "root", "");
    let mid = add(&mut store, Some(&root.id), "mid", "");
    add(&mut store, Some(&mid.id), "leaf", "");
    let subtree = store.get_subtree(&mid.id);
    assert_eq!(subtree.len(), 2);
    assert_eq!(subtree[0].title, "mid");
    assert_eq!(subtree[1].title, "leaf");
}

#[test]
fn get_pending_children_filters_completed() {
    let mut store = TaskStore::new();
    let parent = add(&mut store, None, "parent", "");
    add(&mut store, Some(&parent.id), "pending", "");
    let done = add(&mut store, Some(&parent.id), "done", "");
    let mut u = UpdateTask::empty();
    u.completed = Some(true);
    store.update_task(&done.id, &u).unwrap();
    let pending = store.get_pending_children(Some(&parent.id));
    assert_eq!(pending.len(), 1);
    assert_eq!(pending[0].title, "pending");
    assert_eq!(store.get_children(Some(&parent.id)).len(), 2);
}

#[test]
fn get_pending_children_at_root() {
    let mut store = TaskStore::new();
    add(&mut store, None, "active", "");
    let done = add(&mut store, None, "done", "");
    let mut u = UpdateTask::empty();
    u.completed = Some(true);
    store.update_task(&done.id, &u).unwrap();
    let pending = store.get_pending_children(None);
    assert_eq!(pending.len(), 1);
    assert_eq!(pending[0].title, "active");
}

#[test]
fn home_empty_db() {
    let store = TaskStore::new();
    assert!(store.get_home().is_empty());
}

#[test]
fn home_shows_pending_counts() {
    let mut store = TaskStore::new();
    let project = add(&mut store, None, "My Project", "");
    add(&mut store, Some(&project.id), "pending 1", "");
    add(&mut store, Some(&project.id), "pending 2", "");
    let done = add(&mut store, Some(&project.id), "done", "");
    let mut u = UpdateTask::empty();
    u.completed = Some(true);
    store.update_task(&done.id, &u).unwrap();
    let home = store.get_home();
    assert_eq!(home.len(), 1);
    assert_eq!(home[0].pending_count, 2);
}

#[test]
fn home_counts_nested_pending() {
    let mut store = TaskStore::new();
    let project = add(&mut store, None, "proj", "");
    let sub = add(&mut store, Some(&project.id), "sub", "");
    add(&mut store, Some(&sub.id), "deep task", "");
    let home = store.get_home();
    assert_eq!(home[0].pending_count, 2);
}

#[test]
fn home_next_actions_limited_to_two() {
    let mut store = TaskStore::new();
    let project = add(&mut store, None, "proj", "");
    for i in 0..5 {
        add(&mut store, Some(&project.id), &format!("task {}", i), "");
    }
    let home = store.get_home();
    assert!(home[0].next_actions.len() <= 2);
}

#[test]
fn home_next_actions_skips_completed() {
    let mut store = TaskStore::new();
    let project = add(&mut store, None, "proj", "");
    let first = add(&mut store, Some(&project.id), "done first", "");
    let mut u = UpdateTask::empty();
    u.completed = Some(true);
    store.update_task(&first.id, &u).unwrap();
    add(&mut store, Some(&project.id), "pending", "");
    let home = store.get_home();
    assert_eq!(home[0].next_actions.len(), 1);
    assert_eq!(home[0].next_actions[0].title, "pending");
}

#[test]
fn resolve_id_full_match() {
    let mut store = TaskStore::new();
    let task = add(&mut store, None, "t", "");
    assert_eq!(store.resolve_id(&task.id).unwrap(), task.id);
}

#[test]
fn resolve_id_prefix_match() {
    let mut store = TaskStore::new();
    let task = add(&mut store, None, "t", "");
    let prefix = &task.id[..8];
    assert_eq!(store.resolve_id(prefix).unwrap(), task.id);
}

#[test]
fn resolve_id_no_match() {
    let store = TaskStore::new();
    let result = store.resolve_id("ZZZZZZZZ");
    assert_eq!(result.unwrap_err(), StoreError::NoMatch);
}

#[test]
fn resolve_id_ambiguous() {
    let mut store = TaskStore::new();
    add(&mut store, None, "a", "");
    add(&mut store, None, "b", "");
    assert_eq!(store.resolve_id("").unwrap_err(), StoreError::Ambiguous(2));
}

#[test]
fn search_by_title() {
    let mut store = TaskStore::new();
    add(&mut store, None, "buy groceries", "");
    add(&mut store, None, "unrelated", "");
    let results = store.search_tasks("grocer");
    assert_eq!(results.len(), 1);
    assert_eq!(results[0].task.title, "buy groceries");
}

#[test]
fn search_by_notes() {
    let mut store = TaskStore::new();
    add(&mut store, None, "task", "mentions groceries here");
    assert_eq!(store.search_tasks("grocer").len(), 1);
}

#[test]
fn search_case_insensitive() {
    let mut store = TaskStore::new();
    add(&mut store, None, "Buy Groceries", "");
    assert_eq!(store.search_tasks("buy").len(), 1);
    assert_eq!(store.search_tasks("BUY").len(), 1);
}

#[test]
fn search_no_results() {
    let mut store = TaskStore::new();
    add(&mut store, None, "something", "");
    assert!(store.search_tasks("zzzznotfound").is_empty());
}

#[test]
fn search_includes_path() {
    let mut store = TaskStore::new();
    let root = add(&mut store, None, "Work", "");
    let mid = add(&mut store, Some(&root.id), "Project Alpha", "");
    add(&mut store, Some(&mid.id), "fix the bug", "");
    let results = store.search_tasks("fix the bug");
    assert_eq!(results.len(), 1);
    assert_eq!(results[0].path, vec!["Work", "Project Alpha"]);
}

#[test]
fn search_root_task_has_empty_path() {
    let mut store = TaskStore::new();
    add(&mut store, None, "root task", "");
    let results = store.search_tasks("root task");
    assert_eq!(results.len(), 1);
    assert!(results[0].path.is_empty());
}

#[test]
fn search_limited_to_30() {
    let mut store = TaskStore::new();
    for i in 0..50 {
        add(&mut store, None, &format!("findme {}", i), "");
    }
    assert_eq!(store.search_tasks("findme").len(), 30);
}

#[test]
fn search_wildcards_in_query_are_patterns() {
    let mut store = TaskStore::new();
    add(&mut store, None, "a_b", "");
    add(&mut store, None, "axb", "");
    assert_eq!(store.search_tasks("a_b").len(), 2);
}

#[test]
fn create_sample() {
    let mut store = TaskStore::new();
    let sample = store
        .create_sample(&CreateSample {
            response: "working on flo".into(),
            prompt_type: "activity".into(),
            task_id: None,
        })
        .unwrap();
    assert_eq!(sample.response, "working on flo");
    assert_eq!(sample.prompt_type, "activity");
    assert!(!sample.id.is_empty());
    assert!(!sample.created_at.is_empty());
}

#[test]
fn create_sample_ping_type() {
    let mut store = TaskStore::new();
    let sample = store
        .create_sample(&CreateSample {
            response: "reading a book".into(),
            prompt_type: "ping".into(),
            task_id: None,
        })
        .unwrap();
    assert_eq!(sample.prompt_type, "ping");
}

#[test]
fn create_sample_for_missing_task_is_refused() {
    let mut store = TaskStore::new();
    let r = store.create_sample(&CreateSample {
        response: "x".into(),
        prompt_type: "touch".into(),
        task_id: Some("nope".into()),
    });
    assert_eq!(r.unwrap_err(), StoreError::ParentNotFound);
}

#[test]
fn get_samples_today() {
    let mut store = TaskStore::new();
    store
        .create_sample(&CreateSample { response: "sample 1".into(), prompt_type: "activity".into(), task_id: None })
        .unwrap();
    store
        .create_sample(&CreateSample { response: "sample 2".into(), prompt_type: "ping".into(), task_id: None })
        .unwrap();
    assert_eq!(store.get_samples_today().len(), 2);
}

#[test]
fn samples_ordered_by_created_at() {
    let mut store = TaskStore::new();
    store
        .create_sample(&CreateSample { response: "first".into(), prompt_type: "activity".into(), task_id: None })
        .unwrap();
    store
        .create_sample(&CreateSample { response: "second".into(), prompt_type: "activity".into(), task_id: None })
        .unwrap();
    let samples = store.get_samples_today();
    assert!(samples[0].created_at <= samples[1].created_at);
}

#[test]
fn get_samples_range() {
    let mut store = TaskStore::new();
    store
        .create_sample(&CreateSample { response: "test".into(), prompt_type: "activity".into(), task_id: None })
        .unwrap();
    let samples = store.get_samples_range("2020-01-01T00:00:00Z", "2030-01-01T00:00:00Z");
    assert!(!samples.is_empty());
    let none = store.get_samples_range("2020-01-01T00:00:00Z", "2020-01-02T00:00:00Z");
    assert!(none.is_empty());
}

#[test]
fn search_empty_query_matches_everything() {
    let mut store = TaskStore::new();
    add(&mut store, None, "task", "");
    add(&mut store, None, "other", "");
    assert_eq!(store.search_tasks("").len(), 2);
}
