use share_one_list::download::{
    chunk_response_error, conflict_candidate, first_chunk_error, folder_child_action,
    folder_children_url, pending_chunk_ranges, range_header, ChunkState, DownloadParams,
    FolderChild, FolderChildAction, PersistedBatch, PersistedChunk, PersistedTask, TaskStatus,
};
use share_one_list::engine::{persisted_task, DownloadEngine};
use share_one_list::errors::AppError;

fn params(name: &str, size: u64) -> DownloadParams {
    DownloadParams {
        file_name: name.to_string(),
        home_account_id: "acct".to_string(),
        cloud_env: "global".to_string(),
        drive_id: "d1".to_string(),
        item_id: format!("item-{}", name),
        local_path: format!("/tmp/out/{}", name),
        total_bytes: size,
        download_url: format!("https://dl/{}", name),
        bearer_token: None,
    }
}

fn empty_engine() -> DownloadEngine {
    DownloadEngine::restore_tasks("/tmp/state".to_string(), Vec::new(), 1_700_000_000)
}

fn task_status(engine: &DownloadEngine, id: &str) -> Option<TaskStatus> {
    engine.tasks.iter().find(|t| t.id == id).map(|t| t.status.clone())
}

fn batch_status(engine: &DownloadEngine, id: &str) -> Option<TaskStatus> {
    engine.batches.iter().find(|b| b.id == id).map(|b| b.status.clone())
}

fn transfer_message(r: Result<impl std::fmt::Debug, AppError>) -> String {
    match r {
        Err(AppError::Transfer { message, .. }) => message,
        other => panic!("unexpected {:?}", other),
    }
}

#[test]
fn create_batch_tracks_one_task_per_file() {
    let mut engine = empty_engine();
    let (info, ids) = engine
        .create_batch("Photos".to_string(), vec![params("a.jpg", 10), params("b.jpg", 20)], 1_700_000_000)
        .unwrap();
    assert_eq!(info.batch_name, "Photos");
    assert_eq!(ids.len(), 2);
    assert_eq!(ids[0].len(), 36);
    let batch = engine.batches.iter().find(|b| b.id == info.batch_id).unwrap();
    assert_eq!(batch.total_bytes, 30);
    assert_eq!(batch.task_ids, ids);
    assert_eq!(batch.status, TaskStatus::Downloading);
    assert_eq!(batch.local_path, "/tmp/out");
    let task = engine.tasks.iter().find(|t| t.id == ids[1]).unwrap();
    assert_eq!(task.file_name, "b.jpg");
    assert_eq!(task.batch_id, info.batch_id);
    assert_eq!(task.chunks, vec![ChunkState { start: 0, end: 19, downloaded: 0 }]);
    assert_eq!(
        transfer_message(engine.create_batch("none".to_string(), Vec::new(), 0)),
        "No files to download"
    );
}

#[test]
fn pause_and_resume_follow_the_batch_state() {
    let mut engine = empty_engine();
    let (info, ids) = engine
        .create_batch("Docs".to_string(), vec![params("a.txt", 5), params("b.txt", 7)], 100)
        .unwrap();
    let report = engine.pause_batch(&info.batch_id).unwrap();
    assert_eq!(report.task_ids, ids);
    assert_eq!(report.total_bytes, 12);
    assert_eq!(batch_status(&engine, &info.batch_id), Some(TaskStatus::Paused));
    assert_eq!(task_status(&engine, &ids[0]), Some(TaskStatus::Paused));
    assert_eq!(
        transfer_message(engine.pause_batch(&info.batch_id)),
        "Task is not currently downloading"
    );

    let spawn = engine.resume_batch(&info.batch_id, "https://graph", "tok", 200).unwrap();
    assert_eq!(spawn, ids);
    let task = engine.tasks.iter().find(|t| t.id == ids[0]).unwrap();
    assert_eq!(task.status, TaskStatus::Downloading);
    assert_eq!(task.download_url, "https://graph/drives/d1/items/item-a.txt/content");
    assert_eq!(task.bearer_token.as_deref(), Some("tok"));
    assert_eq!(task.url_obtained_at, 200);
    assert_eq!(
        transfer_message(engine.resume_batch(&info.batch_id, "https://graph", "tok", 300)),
        "Task is not paused"
    );
    assert_eq!(transfer_message(engine.pause_batch("missing")), "Task not found");
}

#[test]
fn resume_skips_completed_children() {
    let mut engine = empty_engine();
    let (info, ids) = engine
        .create_batch("Docs".to_string(), vec![params("a.txt", 5), params("b.txt", 7)], 100)
        .unwrap();
    assert!(engine.batch_bytes_fit_for(&info.batch_id));
    engine.finish_child(&ids[0], &info.batch_id, &Ok(()));
    let report = engine.finish_child(&ids[1], &info.batch_id, &Err("Download cancelled".to_string()));
    assert_eq!(report.status, "paused");
    assert!(report.emit);
    assert_eq!(batch_status(&engine, &info.batch_id), Some(TaskStatus::Paused));
    let spawn = engine.resume_batch(&info.batch_id, "https://g", "t", 1).unwrap();
    assert_eq!(spawn, vec![ids[1].clone()]);
    assert_eq!(task_status(&engine, &ids[0]), Some(TaskStatus::Completed));
}

#[test]
fn finishing_children_drives_the_batch_state() {
    let mut engine = empty_engine();
    let (info, ids) = engine
        .create_batch("Docs".to_string(), vec![params("a.txt", 5), params("b.txt", 7)], 100)
        .unwrap();
    let first = engine.finish_child(&ids[0], &info.batch_id, &Ok(()));
    assert_eq!(first.status, "downloading");
    assert_eq!(first.error, None);
    let second = engine.finish_child(&ids[1], &info.batch_id, &Err("Stream error: reset".to_string()));
    assert_eq!(second.status, "failed");
    assert_eq!(second.error.as_deref(), Some("Some files failed to download"));
    assert_eq!(task_status(&engine, &ids[1]), Some(TaskStatus::Failed(String::new())));

    let mut engine = empty_engine();
    let (info, ids) = engine
        .create_batch("One".to_string(), vec![params("a.txt", 5)], 100)
        .unwrap();
    assert_eq!(engine.update_batch_status(&info.batch_id), Some(false));
    let done = engine.finish_child(&ids[0], &info.batch_id, &Ok(()));
    assert_eq!(done.status, "completed");
    assert_eq!(engine.update_batch_status(&info.batch_id), Some(true));
    assert_eq!(engine.update_batch_status("missing"), None);
}

#[test]
fn a_cancelled_child_of_a_dropped_batch_sends_no_event() {
    let mut engine = empty_engine();
    let (info, ids) = engine
        .create_batch("Docs".to_string(), vec![params("a.txt", 5)], 100)
        .unwrap();
    engine.cancel_batch(&info.batch_id).unwrap();
    let report = engine.finish_child(&ids[0], &info.batch_id, &Err("Download cancelled".to_string()));
    assert!(!report.emit);
    assert_eq!(report.status, "paused");
    let failed = engine.finish_child(&ids[0], &info.batch_id, &Err("boom".to_string()));
    assert!(failed.emit);
    assert_eq!(failed.status, "failed");
    assert_eq!(failed.error.as_deref(), Some("boom"));
}

#[test]
fn cancel_and_remove_forget_the_batch() {
    let mut engine = empty_engine();
    let (info, ids) = engine
        .create_batch("Docs".to_string(), vec![params("a.txt", 5), params("b.txt", 7)], 100)
        .unwrap();
    engine.finish_child(&ids[0], &info.batch_id, &Ok(()));
    let report = engine.remove_batch(&info.batch_id).unwrap();
    assert_eq!(report.cleanups.len(), 2);
    assert_eq!(report.cleanups[0].local_path, "/tmp/out/a.txt");
    assert!(!report.cleanups[0].delete_local);
    assert!(report.cleanups[1].delete_local);
    assert!(report.batch_file.ends_with(&format!("{}.json", info.batch_id)));
    assert!(engine.tasks.is_empty());
    assert!(engine.batches.is_empty());
    assert_eq!(transfer_message(engine.remove_batch(&info.batch_id)), "Task not found");

    let (info, _) = engine
        .create_batch("Docs".to_string(), vec![params("a.txt", 5)], 100)
        .unwrap();
    let report = engine.cancel_batch(&info.batch_id).unwrap();
    assert!(report.cleanups.iter().all(|c| c.delete_local));
    assert_eq!(transfer_message(engine.cancel_batch(&info.batch_id)), "Task not found");
}

#[test]
fn progress_is_counted_per_chunk_task_and_batch() {
    let mut engine = empty_engine();
    let (info, ids) = engine
        .create_batch("Big".to_string(), vec![params("big.bin", 3 * 1024 * 1024)], 100)
        .unwrap();
    assert!(engine.record_chunk_progress(&ids[0], 1, 1000));
    assert!(!engine.record_chunk_progress("missing", 0, 1));
    let task = engine.tasks.iter().find(|t| t.id == ids[0]).unwrap();
    assert_eq!(task.downloaded_bytes, 1000);
    assert_eq!(task.chunks[1].downloaded, 1000);
    assert_eq!(task.chunks[0].downloaded, 0);
    let snapshots = engine.snapshot_batches();
    assert_eq!(snapshots.len(), 1);
    assert_eq!(snapshots[0].downloaded_bytes, 1000);
    assert_eq!(snapshots[0].status, "downloading");
    assert_eq!(engine.batch_home_account_id(&info.batch_id).as_deref(), Some("acct"));
    assert_eq!(engine.batch_home_account_id("missing"), None);
    let persisted = persisted_task(task);
    assert_eq!(persisted.status, "downloading");
    assert_eq!(persisted.chunks[1].downloaded, 1000);
    assert_eq!(persisted.url_obtained_at, "1970-01-01T00:01:40+00:00");
    let pb = engine.persisted_batch(&info.batch_id).unwrap();
    assert_eq!(pb.task_ids, ids);
    assert_eq!(pb.total_bytes, 3 * 1024 * 1024);
}

#[test]
fn restoring_rebuilds_batches_from_their_children() {
    let chunk = |start, end, downloaded| PersistedChunk { start, end, downloaded };
    let task = |id: &str, status: &str, chunks: Vec<PersistedChunk>| PersistedTask {
        id: id.to_string(),
        file_name: format!("{}.bin", id),
        home_account_id: "acct".to_string(),
        drive_id: "d".to_string(),
        item_id: "i".to_string(),
        local_path: format!("/tmp/{}.bin", id),
        total_bytes: 100,
        status: status.to_string(),
        cloud_env: "global".to_string(),
        url_obtained_at: "garbage".to_string(),
        chunks,
        batch_id: "b1".to_string(),
        etag: None,
    };
    let mut engine = DownloadEngine::restore_tasks(
        "/tmp/state".to_string(),
        vec![
            task("t1", "completed", vec![chunk(0, 99, 100)]),
            task("t2", "downloading", vec![chunk(0, 49, 20), chunk(50, 99, 5)]),
        ],
        10_000,
    );
    assert_eq!(task_status(&engine, "t2"), Some(TaskStatus::Paused));
    let pb = PersistedBatch {
        id: "b1".to_string(),
        name: "Batch".to_string(),
        task_ids: vec!["t1".to_string(), "t2".to_string(), "gone".to_string()],
        total_bytes: 200,
        home_account_id: "acct".to_string(),
        local_path: "/tmp".to_string(),
        cloud_env: "global".to_string(),
        drive_id: "d".to_string(),
        url_obtained_at: "2024-01-01T00:00:00Z".to_string(),
    };
    assert!(engine.chunk_bytes_fit(&pb.task_ids));
    engine.restore_batch(pb, 10_000);
    let batch = engine.batches.iter().find(|b| b.id == "b1").unwrap();
    assert_eq!(batch.downloaded_bytes, 125);
    assert_eq!(batch.status, TaskStatus::Failed("Some files failed to download".to_string()));
    assert_eq!(batch.url_obtained_at, 10_000);
}

#[test]
fn pending_ranges_resume_after_downloaded_bytes() {
    let chunks = vec![
        ChunkState { start: 0, end: 9, downloaded: 10 },
        ChunkState { start: 10, end: 19, downloaded: 4 },
        ChunkState { start: 20, end: 29, downloaded: 0 },
    ];
    assert_eq!(pending_chunk_ranges(&chunks), vec![(1, 14, 19), (2, 20, 29)]);
    assert_eq!(range_header(14, 19), "bytes=14-19");
    assert_eq!(chunk_response_error(206), None);
    assert_eq!(chunk_response_error(200), None);
    assert_eq!(chunk_response_error(416).as_deref(), Some("Unexpected status code: 416"));
    assert_eq!(
        first_chunk_error(&vec![Ok(()), Err("first".to_string()), Err("second".to_string())]),
        Some("first".to_string())
    );
    assert_eq!(first_chunk_error(&vec![Ok(()), Ok(())]), None);
}

#[test]
fn conflicting_names_get_a_counter_before_the_extension() {
    assert_eq!(conflict_candidate(Some("report.docx"), 1), "report (1).docx");
    assert_eq!(conflict_candidate(Some("archive.tar.gz"), 2), "archive.tar (2).gz");
    assert_eq!(conflict_candidate(Some(".bashrc"), 3), ".bashrc (3)");
    assert_eq!(conflict_candidate(Some("README"), 4), "README (4)");
    assert_eq!(conflict_candidate(None, 5), "file (5)");
}

#[test]
fn folder_children_become_downloads_or_descents() {
    assert_eq!(
        folder_children_url("https://g/v1.0", "d1", "f1"),
        "https://g/v1.0/drives/d1/items/f1/children?$top=200"
    );
    let file = FolderChild {
        id: Some("i1".to_string()),
        name: Some("a.txt".to_string()),
        size: Some(42),
        is_folder: false,
        download_url: Some("https://dl".to_string()),
    };
    match folder_child_action(&file, "global", "acct", "d1", "tok", "/tmp/out") {
        FolderChildAction::Fetch(p) => {
            assert_eq!(p.file_name, "a.txt");
            assert_eq!(p.total_bytes, 42);
            assert_eq!(p.bearer_token.as_deref(), Some("tok"));
            assert!(p.local_path.ends_with("a.txt"));
        }
        other => panic!("unexpected {:?}", other),
    }
    let folder = FolderChild { is_folder: true, download_url: None, size: None, ..file.clone() };
    match folder_child_action(&folder, "global", "acct", "d1", "tok", "/tmp/out") {
        FolderChildAction::Descend { item_id, local_path } => {
            assert_eq!(item_id, "i1");
            assert_eq!(local_path, "/tmp/out/a.txt");
        }
        other => panic!("unexpected {:?}", other),
    }
    let nameless = FolderChild { name: None, ..file.clone() };
    assert!(matches!(
        folder_child_action(&nameless, "global", "acct", "d1", "tok", "/tmp/out"),
        FolderChildAction::Skip
    ));
    let no_url = FolderChild { download_url: Some(String::new()), ..file };
    assert!(matches!(
        folder_child_action(&no_url, "global", "acct", "d1", "tok", "/tmp/out"),
        FolderChildAction::Skip
    ));
}
