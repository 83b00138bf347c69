use share_one_list::errors::AppError;
use share_one_list::upload::{
    content_range, next_chunk_action, progress_status, session_url, simple_upload_url,
    transfer_speed, upload_chunks, upload_outcome, upload_strategy, ChunkAction, ChunkOutcome,
    UploadChunk, UploadParams, UploadEngine, UploadStatus, UploadStrategy,
};

fn params(total: u64) -> UploadParams {
    UploadParams {
        file_name: "report.docx".to_string(),
        drive_id: "d1".to_string(),
        parent_id: "p1".to_string(),
        local_path: "/tmp/report.docx".to_string(),
        total_bytes: total,
        base_url: "https://graph.microsoft.com/v1.0".to_string(),
        token: "t".to_string(),
    }
}

#[test]
fn small_files_use_a_single_put() {
    assert_eq!(upload_strategy(0), UploadStrategy::Simple);
    assert_eq!(upload_strategy(4 * 1024 * 1024), UploadStrategy::Simple);
    assert_eq!(upload_strategy(4 * 1024 * 1024 + 1), UploadStrategy::Session);
}

#[test]
fn upload_urls_use_the_colon_path_syntax() {
    assert_eq!(
        simple_upload_url("https://g/v1.0", "d1", "p1", "a.txt"),
        "https://g/v1.0/drives/d1/items/p1:/a.txt:/content"
    );
    assert_eq!(
        session_url("https://g/v1.0", "d1", "p1", "a.txt"),
        "https://g/v1.0/drives/d1/items/p1:/a.txt:/createUploadSession"
    );
}

#[test]
fn session_chunks_cover_the_file_in_320_kib_steps() {
    let total: u64 = 327680 * 2 + 100;
    let chunks = upload_chunks(total);
    assert_eq!(
        chunks,
        vec![
            UploadChunk { start: 0, end: 327679 },
            UploadChunk { start: 327680, end: 655359 },
            UploadChunk { start: 655360, end: 655459 },
        ]
    );
    assert!(upload_chunks(0).is_empty());
    assert_eq!(upload_chunks(327680), vec![UploadChunk { start: 0, end: 327679 }]);
}

#[test]
fn content_range_header_format() {
    assert_eq!(content_range(0, 327679, 655460), "bytes 0-327679/655460");
}

#[test]
fn chunk_retry_backs_off_then_fails_with_last_error() {
    let accepted = ChunkOutcome::Response { status_code: 202, body: String::new() };
    assert!(matches!(next_chunk_action(0, &accepted), ChunkAction::Next));
    let busy = ChunkOutcome::Response { status_code: 503, body: "busy".to_string() };
    assert!(matches!(next_chunk_action(0, &busy), ChunkAction::RetryAfter(1)));
    assert!(matches!(next_chunk_action(1, &busy), ChunkAction::RetryAfter(2)));
    match next_chunk_action(2, &busy) {
        ChunkAction::Fail(m) => assert_eq!(
            m,
            "Chunk upload failed after 3 retries: Chunk upload failed with status 503: busy"
        ),
        other => panic!("unexpected {:?}", other),
    }
    let refused = ChunkOutcome::RequestFailed("reset".to_string());
    match next_chunk_action(2, &refused) {
        ChunkAction::Fail(m) => assert_eq!(
            m,
            "Chunk upload failed after 3 retries: Chunk upload request failed: reset"
        ),
        other => panic!("unexpected {:?}", other),
    }
}

#[test]
fn progress_and_speed() {
    assert_eq!(progress_status(10, 10, "uploading"), "completed");
    assert_eq!(progress_status(3, 10, "uploading"), "uploading");
    assert_eq!(transfer_speed(300, 100), 200);
    assert_eq!(transfer_speed(100, 300), 0);
    assert_eq!(upload_outcome(&Ok(())), ("completed".to_string(), None));
    assert_eq!(
        upload_outcome(&Err("boom".to_string())),
        ("failed".to_string(), Some("boom".to_string()))
    );
}

#[test]
fn registry_tracks_and_cancels_uploads() {
    let mut reg = UploadEngine::new();
    let u1 = reg.create_task(&params(10));
    let u2 = reg.create_task(&params(20));
    assert_ne!(u1, u2);
    assert_eq!(reg.task_ids(), vec![u1.clone(), u2.clone()]);
    assert_eq!(reg.get_task_status(&u2), Some(&UploadStatus::Uploading));
    assert!(reg.cancel_task(&u1).is_ok());
    assert_eq!(reg.task_ids(), vec![u2.clone()]);
    assert_eq!(reg.get_task_status(&u1), None);
    match reg.cancel_task(&u1) {
        Err(AppError::Transfer { message, task_id }) => {
            assert_eq!(message, "Task not found");
            assert_eq!(task_id, u1);
        }
        other => panic!("unexpected {:?}", other),
    }
}
