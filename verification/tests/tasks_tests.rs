use astra_core::tasks::{BackgroundTask, TaskManager, TaskStatus, TaskType};
use astra_core::types::{OperationType, SyncOperation};

#[test]
fn test_task_lifecycle() {
    let mut mgr = TaskManager::new();
    let id = mgr.submit_task(
        TaskType::FileUpload {
            local_path: "/l/a.txt".to_string(),
            remote_path: "/r/a.txt".to_string(),
        },
        100,
    );

    // observable as Pending immediately after submission
    let t = mgr.get_task_status(id).unwrap();
    assert!(matches!(t.status, TaskStatus::Pending));
    assert_eq!(t.created_at, 100);

    assert!(mgr.mark_running(id, 101));
    let t = mgr.get_task_status(id).unwrap();
    assert!(matches!(t.status, TaskStatus::Running));
    assert_eq!(t.updated_at, 101);

    let outcome = TaskManager::execute_task(mgr.get_task_status(id).unwrap());
    let result = outcome.expect("file upload task reports success");
    assert!(mgr.finish_task(id, Ok(result), 102));
    let t = mgr.get_task_status(id).unwrap();
    assert!(matches!(t.status, TaskStatus::Completed));
    assert_eq!(t.updated_at, 102);
    assert!(t.result.is_some());
}

#[test]
fn test_terminal_status_never_changes() {
    let mut mgr = TaskManager::new();
    let id = mgr.submit_task(TaskType::FullSync, 10);
    assert!(mgr.mark_running(id, 11));
    assert!(mgr.finish_task(id, Err("broken".to_string()), 12));

    let t = mgr.get_task_status(id).unwrap();
    match &t.status {
        TaskStatus::Failed(m) => assert_eq!(m, "broken"),
        _ => panic!("expected Failed"),
    }

    // no transition applies to a terminal task
    assert!(!mgr.mark_running(id, 13));
    assert!(!mgr.finish_task(id, Err("again".to_string()), 14));
    let t = mgr.get_task_status(id).unwrap();
    assert!(matches!(t.status, TaskStatus::Failed(_)));
    assert_eq!(t.updated_at, 12);
}

#[test]
fn test_pending_cannot_finish_directly() {
    let mut mgr = TaskManager::new();
    let id = mgr.submit_task(TaskType::FullSync, 10);
    assert!(!mgr.finish_task(id, Err("x".to_string()), 11));
    let t = mgr.get_task_status(id).unwrap();
    assert!(matches!(t.status, TaskStatus::Pending));
}

#[test]
fn test_cleanup_old_tasks() {
    let mut mgr = TaskManager::new();
    let done_old = mgr.submit_task(TaskType::FullSync, 0);
    let done_new = mgr.submit_task(TaskType::FullSync, 0);
    let running_old = mgr.submit_task(TaskType::FullSync, 0);
    let pending_old = mgr.submit_task(TaskType::FullSync, 0);

    assert!(mgr.mark_running(done_old, 1));
    assert!(mgr.finish_task(done_old, Err("e".to_string()), 5));
    assert!(mgr.mark_running(done_new, 1));
    assert!(mgr.finish_task(done_new, Err("e".to_string()), 95));
    assert!(mgr.mark_running(running_old, 2));

    // at time 100 with a maximum age of 50: the old terminal task goes,
    // the fresh terminal task stays, Running and Pending stay whatever
    // their age
    mgr.cleanup_old_tasks(100, 50);

    assert!(mgr.get_task_status(done_old).is_none());
    assert!(mgr.get_task_status(done_new).is_some());
    assert!(mgr.get_task_status(running_old).is_some());
    assert!(mgr.get_task_status(pending_old).is_some());
    assert_eq!(mgr.get_all_tasks().len(), 3);
}

#[test]
fn test_task_ids_are_fresh() {
    let mut mgr = TaskManager::new();
    let a = mgr.submit_task(TaskType::FullSync, 0);
    let b = mgr.submit_task(TaskType::FullSync, 0);
    assert_ne!(a, b);
    assert_eq!(mgr.get_all_tasks().len(), 2);
}

fn task_of(task_type: TaskType) -> BackgroundTask {
    BackgroundTask {
        id: 1,
        task_type,
        status: TaskStatus::Running,
        created_at: 0,
        updated_at: 0,
        result: None,
    }
}

#[test]
fn test_execute_task_full_sync_needs_config() {
    let out = TaskManager::execute_task(&task_of(TaskType::FullSync));
    let err = out.expect_err("full sync has no configuration");
    assert_eq!(
        err.message(),
        "Task error: Full sync requires configuration - not implemented for background tasks yet"
    );
}

#[test]
fn test_execute_task_single_transfers() {
    let out = TaskManager::execute_task(&task_of(TaskType::FileUpload {
        local_path: "/l/a".to_string(),
        remote_path: "/r/a".to_string(),
    }))
    .unwrap();
    assert!(out.success);
    assert_eq!(out.message, "File upload completed");
    assert_eq!(out.files_transferred, vec!["/l/a".to_string()]);

    let out = TaskManager::execute_task(&task_of(TaskType::FileDownload {
        remote_path: "/r/b".to_string(),
        local_path: "/l/b".to_string(),
    }))
    .unwrap();
    assert!(out.success);
    assert_eq!(out.message, "File download completed");
    assert_eq!(out.files_transferred, vec!["/l/b".to_string()]);
}

#[test]
fn test_execute_task_custom_operations() {
    let mk = |kind: OperationType, lp: &str| SyncOperation {
        operation_type: kind,
        local_path: lp.to_string(),
        remote_path: "/r".to_string(),
        timestamp: 0,
    };
    let out = TaskManager::execute_task(&task_of(TaskType::CustomOperations {
        operations: vec![
            mk(OperationType::Upload, "/l/a"),
            mk(OperationType::Delete, "/l/b"),
            mk(OperationType::Download, "/l/c"),
            mk(OperationType::CreateDirectory, "/l/d"),
        ],
    }))
    .unwrap();
    assert!(out.success);
    assert_eq!(out.message, "Custom operations completed");
    assert_eq!(out.files_transferred, vec!["/l/a".to_string(), "/l/c".to_string()]);
}
