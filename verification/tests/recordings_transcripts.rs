use share_one_list::models::{DriveItem, MeetingRecording, RecordingSource, Site};
use share_one_list::recordings::{
    children_into_recordings, file_base_name, is_recording_video_name, item_path_under_parent,
    path_points_to_recordings_folder, push_unique_site, sort_recordings_desc,
    transcript_match_rank,
};
use share_one_list::transcript::{
    format_clock_seconds, format_cue_timestamp, parse_time_offset, split_cue_speaker,
    strip_vtt_tags_str, transcript_json_candidate, transcript_to_script_lines, unbracket_speaker,
    vtt_to_script_lines, TranscriptEntry,
};

fn recording(name: &str, modified: &str) -> MeetingRecording {
    MeetingRecording {
        drive_id: "drive".to_string(),
        item: DriveItem {
            id: name.to_string(),
            name: name.to_string(),
            size: Some(1),
            last_modified: modified.to_string(),
            is_folder: false,
            mime_type: Some("video/mp4".to_string()),
            web_url: None,
            parent_reference: None,
            download_url: None,
            created_date_time: None,
        },
        source_type: RecordingSource::OneDrive,
        source_name: String::new(),
    }
}

/// Decodes the Teams transcript JSON the way the app does before handing the
/// entries to the library: string fields, offsets also read as seconds.
fn decode_entries(json: &str) -> Option<Vec<TranscriptEntry>> {
    let value: serde_json::Value = serde_json::from_str(json).ok()?;
    let entries = match value.get("entries") {
        None => return Some(Vec::new()),
        Some(e) => e.as_array()?.clone(),
    };
    let mut out = Vec::new();
    for e in entries {
        let field = |k: &str| e.get(k).and_then(|v| v.as_str()).map(|s| s.to_string());
        let start_offset = field("startOffset");
        let start_seconds = start_offset.as_deref().and_then(|raw| {
            let secs: f64 = raw.trim().parse().ok()?;
            if !secs.is_finite() || secs < 0.0 {
                None
            } else {
                Some(secs as u64)
            }
        });
        out.push(TranscriptEntry {
            start_offset,
            start_seconds,
            speaker_display_name: field("speakerDisplayName"),
            text: field("text"),
        });
    }
    Some(out)
}

fn script(text: &str) -> Vec<String> {
    let entries = transcript_json_candidate(text).and_then(|c| decode_entries(&c));
    transcript_to_script_lines(text, entries)
}

#[test]
fn video_extension_filter_accepts_mp4_only() {
    assert!(is_recording_video_name("2026-08-20 14-30 - Sprint Review.MP4"));
    assert!(!is_recording_video_name("meeting.mkv"));
    assert!(!is_recording_video_name("clip.webm"));
    assert!(!is_recording_video_name("meeting.vtt"));
    assert!(!is_recording_video_name("notes.txt"));
    assert!(!is_recording_video_name("noextension"));
    assert!(!is_recording_video_name("mp4.backup"));
}

#[test]
fn recordings_path_matcher_accepts_localized_aliases_only() {
    assert!(path_points_to_recordings_folder(Some(&"/drive/root:/Recordings".to_string())));
    assert!(path_points_to_recordings_folder(Some(&"/drive/root:/recordings/sub".to_string())));
    assert!(path_points_to_recordings_folder(Some(&"/drive/root:/会议录制".to_string())));
    assert!(path_points_to_recordings_folder(Some(&"/drive/root:/录制/2026".to_string())));
    assert!(!path_points_to_recordings_folder(Some(
        &"/drive/root:/Documents/recordings-backup".to_string()
    )));
    assert!(!path_points_to_recordings_folder(None));
}

#[test]
fn recordings_sort_newest_first_and_unparseable_dates_sink_to_bottom() {
    let mut recordings = vec![
        recording("old", "2026-08-19T10:00:00Z"),
        recording("bad", "not-a-date"),
        recording("newest", "2026-08-20T14:30:00Z"),
        recording("middle", "2026-08-20T06:30:00Z"),
    ];
    sort_recordings_desc(&mut recordings);
    let names: Vec<&str> = recordings.iter().map(|r| r.item.id.as_str()).collect();
    assert_eq!(names, vec!["newest", "middle", "old", "bad"]);
}

#[test]
fn recordings_sort_tiebreaks_by_name_case_insensitively() {
    let mut recordings = vec![
        recording("Sprint", "2026-08-20T14:30:00Z"),
        recording("alpha", "2026-08-20T14:30:00Z"),
        recording("Beta", "2026-08-20T14:30:00Z"),
    ];
    sort_recordings_desc(&mut recordings);
    let names: Vec<&str> = recordings.iter().map(|r| r.item.id.as_str()).collect();
    assert_eq!(names, vec!["alpha", "Beta", "Sprint"]);
}

#[test]
fn transcript_dispatch_handles_teams_json_entries() {
    let json = [
        "{\"entries\":[",
        "{\"startOffset\":\"5.2\",\"speakerDisplayName\":\"John Doe\",\"text\":\"Good morning.\"},",
        "{\"startOffset\":\"00:00:09\",\"speakerDisplayName\":\"John Doe\",\"text\":\"Let's start.\"},",
        "{\"startOffset\":\"62.5\",\"speakerDisplayName\":\"Jane Smith\",\"text\":\"Morning!\"}",
        "]}",
    ]
    .concat();
    let json = json.as_str();
    assert_eq!(
        script(json),
        vec![
            "[00:00:05] John Doe: Good morning. Let's start.",
            "[00:01:02] Jane Smith: Morning!",
        ]
    );
    let vtt = "WEBVTT

00:00:03.000 --> 00:00:04.000
Hello.
";
    assert_eq!(script(vtt), vec!["[00:00:03] Hello."]);
    assert!(script("not a transcript").is_empty());
}

#[test]
fn transcript_path_addresses_root_relative_folders_from_both_drive_flavors() {
    assert_eq!(
        item_path_under_parent("/drive/root:/Recordings", "Meeting.vtt"),
        "root:/Recordings/Meeting.vtt"
    );
    assert_eq!(item_path_under_parent("/drive/root:", "Meeting.vtt"), "root:/Meeting.vtt");
    assert_eq!(
        item_path_under_parent("/drives/abc/root:/General/Recordings", "M.vtt"),
        "root:/General/Recordings/M.vtt"
    );
    assert_eq!(
        item_path_under_parent("/drive/root:/Recordings/", "M.vtt"),
        "root:/Recordings/M.vtt"
    );
}

#[test]
fn transcript_match_prefers_exact_vtt_and_rejects_other_extensions() {
    let base = "2026-08-20 14-30 - sprint review".to_lowercase();
    assert_eq!(transcript_match_rank("2026-08-20 14-30 - Sprint Review.vtt", &base), Some(0));
    assert_eq!(transcript_match_rank("2026-08-20 14-30 - SPRINT REVIEW.VTT", &base), Some(0));
    assert_eq!(transcript_match_rank("2026-08-20 14-30 - Sprint Review-en.vtt", &base), Some(1));
    assert_eq!(transcript_match_rank("other-meeting.vtt", &base), None);
    assert_eq!(transcript_match_rank("2026-08-20 14-30 - Sprint Review.docx", &base), None);
    assert_eq!(transcript_match_rank("2026-08-20 14-30 - Sprint Review.mp4", &base), None);
    assert_eq!(transcript_match_rank("whatever.vtt", ""), None);
    assert_eq!(transcript_match_rank(".vtt", ""), Some(0));
}

#[test]
fn file_base_name_strips_only_the_final_extension() {
    assert_eq!(file_base_name("meeting.mp4"), "meeting");
    assert_eq!(file_base_name("a.b.mp4"), "a.b");
    assert_eq!(file_base_name("noextension"), "noextension");
}

#[test]
fn cue_timestamps_normalize_to_bracketed_hh_mm_ss() {
    assert_eq!(format_cue_timestamp("00:00:05.120"), "[00:00:05]");
    assert_eq!(format_cue_timestamp("01:02:03,456"), "[01:02:03]");
    assert_eq!(format_cue_timestamp("05:12.500"), "[00:05:12]");
}

#[test]
fn vtt_script_converts_teams_speaker_lines_and_groups_consecutive_cues() {
    let vtt = "WEBVTT
Kind: captions
Language: en-US

            00:00:05.120 --> 00:00:08.400
John Doe
Good morning everyone.

            00:00:09.000 --> 00:00:11.000
John Doe
Let's get started.

            00:00:12.000 --> 00:00:13.500
Jane Smith
Morning!
";
    assert_eq!(
        vtt_to_script_lines(vtt),
        vec![
            "[00:00:05] John Doe: Good morning everyone. Let's get started.",
            "[00:00:12] Jane Smith: Morning!",
        ]
    );
}

#[test]
fn vtt_script_handles_inline_speaker_and_speakerless_captions() {
    let inline = "WEBVTT

            00:00:03.250 --> 00:00:05.670
John Doe: Hello there.
";
    assert_eq!(vtt_to_script_lines(inline), vec!["[00:00:03] John Doe: Hello there."]);

    let plain = "WEBVTT

            00:00:10.000 --> 00:00:12.000
Welcome to the review.
";
    assert_eq!(vtt_to_script_lines(plain), vec!["[00:00:10] Welcome to the review."]);

    let decorated = "WEBVTT

NOTE this is a note
with two lines

            00:01:00.000 --> 00:01:02.000
[\"Jane\"]
<v Jane>Please <c.colorE5E7E5>look</c> here.</v>
";
    assert_eq!(vtt_to_script_lines(decorated), vec!["[00:01:00] Jane: Please look here."]);

    assert!(vtt_to_script_lines("WEBVTT
Kind: captions
Language: en-US
")
    .is_empty());
}

#[test]
fn clock_labels_pad_each_field() {
    assert_eq!(format_clock_seconds(0), "[00:00:00]");
    assert_eq!(format_clock_seconds(62), "[00:01:02]");
    assert_eq!(format_clock_seconds(3725), "[01:02:05]");
    assert_eq!(format_clock_seconds(360000), "[100:00:00]");
}

#[test]
fn time_offsets_accept_clock_and_seconds_forms() {
    assert_eq!(parse_time_offset(" 00:00:09 ", None), Some("[00:00:09]".to_string()));
    assert_eq!(parse_time_offset("5.2", Some(5)), Some("[00:00:05]".to_string()));
    assert_eq!(parse_time_offset("abc", None), None);
}

#[test]
fn caption_helpers_clean_markup_and_speakers() {
    assert_eq!(strip_vtt_tags_str("<v Jane>Hi <b>there</b></v>"), "Hi there");
    assert_eq!(strip_vtt_tags_str("a > b"), "a  b");
    assert_eq!(unbracket_speaker("  [\"John Doe\"] "), "John Doe");
    assert_eq!(unbracket_speaker("Jane"), "Jane");
    let (sp, text) = split_cue_speaker(&["John Doe: Hello there.".to_string()]);
    assert_eq!(sp.as_deref(), Some("John Doe"));
    assert_eq!(text, "Hello there.");
    let (sp, text) = split_cue_speaker(&["one two three four five: text".to_string()]);
    assert_eq!(sp, None);
    assert_eq!(text, "one two three four five: text");
    let (sp, text) = split_cue_speaker(&[]);
    assert_eq!(sp, None);
    assert_eq!(text, "");
}

#[test]
fn listing_keeps_only_mp4_recordings() {
    let items = vec![recording("a.mp4", "x").item, recording("b.vtt", "x").item];
    let recs = children_into_recordings(items, "d1", RecordingSource::SharePoint, "Site");
    assert_eq!(recs.len(), 1);
    assert_eq!(recs[0].item.name, "a.mp4");
    assert_eq!(recs[0].drive_id, "d1");
    assert_eq!(recs[0].source_name, "Site");
}

#[test]
fn unique_sites_skip_known_ids() {
    let site = |id: &str| Site { id: id.to_string(), display_name: "S".to_string(), web_url: String::new() };
    let mut sites = vec![site("a")];
    push_unique_site(&mut sites, site("a"));
    push_unique_site(&mut sites, site("b"));
    push_unique_site(&mut sites, site(""));
    push_unique_site(&mut sites, site(""));
    let ids: Vec<&str> = sites.iter().map(|s| s.id.as_str()).collect();
    assert_eq!(ids, vec!["a", "b", "", ""]);
}
