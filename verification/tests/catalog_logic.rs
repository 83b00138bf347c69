use share_one_list::catalog::{
    ai_read_writes, browse_writes, build_match, child_entry, clamp_depth, env_str,
    hit_matches_keywords, hit_writes, index_folder, parent_path, query_keywords,
    relative_root_path, BrowseItem, CatalogHit, CatalogStore, ChildEntry, HitInput,
    merge_drive, merge_node, plan_query, CatalogDrive, CatalogNodeInput, StoredNode,
};
use share_one_list::models::CloudEnvironment;

#[test]
fn relative_root_path_strips_drive_prefix() {
    assert_eq!(relative_root_path("/drive/root:/AE&TS/03. TLOB"), "AE&TS/03. TLOB");
    assert_eq!(relative_root_path("/drive/root:"), "");
    assert_eq!(relative_root_path(""), "");
}

#[test]
fn child_entry_parses_graph_shape() {
    let entry = child_entry("01ABC".into(), "report.pdf".into(), Some("/drive/root:/AE&TS"), false);
    assert_eq!(entry.item_id, "01ABC");
    assert_eq!(entry.name, "report.pdf");
    assert_eq!(entry.path, "AE&TS/report.pdf");
    assert_eq!(entry.kind, "file");
}

#[test]
fn child_entry_detects_folders_and_root_entries() {
    let entry = child_entry("01F".into(), "Lab".into(), Some("/drive/root:"), true);
    assert_eq!(entry.kind, "folder");
    assert_eq!(entry.path, "Lab", "root-level entries use bare name");
    assert_eq!(child_entry("x".into(), "n".into(), None, false).path, "n");
}

#[test]
fn store_and_env_names() {
    assert_eq!(CatalogStore::new("/data").file_name, "catalog.db");
    assert_eq!(env_str(&CloudEnvironment::China), "china");
    assert_eq!(parent_path("a/b/c"), "a/b");
    assert_eq!(parent_path("top"), "");
}

fn browse_item(path: &str, kind: &str) -> BrowseItem {
    BrowseItem {
        item_id: format!("id-{path}"),
        name: path.rsplit('/').next().unwrap_or(path).into(),
        path: path.into(),
        kind: kind.into(),
    }
}

#[test]
fn browse_upserts_folder_with_children() {
    let writes = browse_writes("AE&TS", "AE&TS", "id-AE&TS", &[browse_item("AE&TS/report.pdf", "file")]);
    assert_eq!(writes.len(), 2);
    assert_eq!(writes[0].0.path, "AE&TS");
    assert_eq!(writes[0].0.kind, "folder");
    assert_eq!(writes[0].1, 1);
    assert_eq!(writes[1].0.path, "AE&TS/report.pdf");
    assert_eq!(writes[1].1, 0);
}

#[test]
fn hit_records_complete_ancestor_chain() {
    let hits = vec![HitInput {
        path: "a/b/c.txt".into(),
        item_id: "f".into(),
        name: "c.txt".into(),
        kind: "file".into(),
        desc: "d".into(),
    }];
    let writes = hit_writes(&hits);
    let paths: Vec<&str> = writes.iter().map(|w| w.0.path.as_str()).collect();
    assert_eq!(paths, vec!["a/b/c.txt", "a/b", "a"]);
    assert_eq!(writes[1].0.name, "b");
    assert_eq!(writes[1].0.item_id, "");
    assert_eq!(writes[1].0.kind, "folder");
    assert!(writes.iter().all(|w| w.1 == 1));
}

#[test]
fn record_hits_is_idempotent_per_path() {
    let hit = |p: &str| HitInput {
        path: p.into(),
        item_id: String::new(),
        name: p.rsplit('/').next().unwrap().into(),
        kind: "file".into(),
        desc: String::new(),
    };
    let writes = hit_writes(&[hit("x/y.txt"), hit("x/y.txt"), hit("x/z.txt")]);
    let paths: Vec<&str> = writes.iter().map(|w| w.0.path.as_str()).collect();
    assert_eq!(paths, vec!["x/y.txt", "x", "x/z.txt"]);
    assert!(hit_writes(&[]).is_empty());
}

#[test]
fn ai_read_writes_one_visited_file() {
    let writes = ai_read_writes("p/f.md", "id", "f.md", "about f");
    assert_eq!(writes.len(), 1);
    assert_eq!(writes[0].0.desc, "about f");
    assert_eq!(writes[0].0.kind, "file");
    assert_eq!(writes[0].1, 1);
}

#[test]
fn empty_keywords_return_nothing() {
    let (terms, long) = query_keywords(&["  ".into()]);
    assert!(terms.is_empty());
    assert!(long.is_empty());
}

#[test]
fn short_keywords_fall_back_to_like() {
    let (terms, long) = query_keywords(&[" md ".into(), "TLOB".into()]);
    assert_eq!(terms, vec!["md", "TLOB"]);
    assert_eq!(long, vec!["TLOB"]);
}

#[test]
fn match_expression_quotes_keywords() {
    assert_eq!(
        build_match(&["TLOB".into(), "a\"b".into()]),
        "(name:\"TLOB\" OR path:\"TLOB\" OR desc:\"TLOB\") AND (name:\"a\"\"b\" OR path:\"a\"\"b\" OR desc:\"a\"\"b\")"
    );
}

#[test]
fn mixed_queries_post_filter_on_every_keyword() {
    let hit = CatalogHit {
        account_id: "a".into(),
        cloud_env: "global".into(),
        drive_id: "d".into(),
        drive_name: "D".into(),
        site_name: String::new(),
        path: "R&D/Notes.MD".into(),
        item_id: "i".into(),
        name: "Notes.MD".into(),
        kind: "file".into(),
        desc: String::new(),
        visit_count: 0,
    };
    assert!(hit_matches_keywords(&hit, &["md".into(), "notes".into()]));
    assert!(!hit_matches_keywords(&hit, &["xlsx".into()]));
}

#[test]
fn deep_index_walks_folders_up_to_the_depth_limit() {
    assert_eq!(clamp_depth(0), 1);
    assert_eq!(clamp_depth(50), 10);
    let entries = vec![
        ChildEntry { item_id: "f".into(), name: "sub".into(), path: String::new(), kind: "folder".into() },
        ChildEntry { item_id: "g".into(), name: "a.txt".into(), path: String::new(), kind: "file".into() },
    ];
    let (writes, tasks) = index_folder("top", 0, 5, &entries);
    assert_eq!(writes[0].0.path, "top/sub");
    assert_eq!(writes[1].0.path, "top/a.txt");
    assert_eq!(tasks.len(), 1);
    assert_eq!(tasks[0].path, "top/sub");
    assert_eq!(tasks[0].depth, 1);
    let (_, tasks) = index_folder("", 4, 5, &entries);
    assert!(tasks.is_empty());
}

fn node_input(item_id: &str, name: &str, desc: &str) -> CatalogNodeInput {
    CatalogNodeInput {
        path: "R&D/report.pdf".into(),
        item_id: item_id.into(),
        name: name.into(),
        kind: "file".into(),
        desc: desc.into(),
    }
}

#[test]
fn node_merge_adds_visits_and_keeps_first_description_and_id() {
    let first = merge_node(None, &node_input("id-1", "report.pdf", "2025 report"), 1, 100);
    assert_eq!(first.visit_count, 1);
    assert_eq!(first.parent_path, "R&D");
    assert_eq!(first.last_visited, 100);
    let again = merge_node(Some(first.clone()), &node_input("", "report-final.pdf", "other"), 0, 200);
    assert_eq!(again.item_id, "id-1");
    assert_eq!(again.desc, "2025 report");
    assert_eq!(again.name, "report-final.pdf");
    assert_eq!(again.visit_count, 1);
    assert_eq!(again.last_visited, 100);
    let visited = merge_node(Some(again), &node_input("id-2", "report.pdf", ""), 2, 300);
    assert_eq!(visited.item_id, "id-2");
    assert_eq!(visited.visit_count, 3);
    assert_eq!(visited.last_visited, 300);
    let blank = StoredNode { desc: String::new(), ..visited };
    assert_eq!(merge_node(Some(blank), &node_input("", "r", "now described"), 0, 400).desc, "now described");
}

#[test]
fn drive_merge_keeps_site_name_when_blank() {
    let d = CatalogDrive {
        account_id: "acc1".into(),
        cloud_env: "global".into(),
        drive_id: "drv1".into(),
        kind: "sharepoint".into(),
        name: "Docs".into(),
        site_name: "Team".into(),
        status: "ready".into(),
        node_count: 7,
        last_used_at: 1,
    };
    let again = CatalogDrive { name: "Documents".into(), site_name: String::new(), status: "queued".into(), node_count: 0, last_used_at: 5, ..d.clone() };
    let m = merge_drive(Some(d.clone()), again.clone());
    assert_eq!(m.name, "Documents");
    assert_eq!(m.site_name, "Team");
    assert_eq!(m.status, "ready");
    assert_eq!(m.node_count, 7);
    assert_eq!(m.last_used_at, 5);
    assert_eq!(merge_drive(None, again.clone()).status, "queued");
}

#[test]
fn blank_keywords_plan_no_query() {
    assert!(plan_query(&["  ".to_string(), String::new()], None, 10).is_none());
    let plan = plan_query(&[" TLOB ".to_string(), "成本".to_string()], None, 10).unwrap();
    assert_eq!(plan.terms, vec!["TLOB".to_string(), "成本".to_string()]);
    assert_eq!(plan.long_terms, vec!["TLOB".to_string()]);
}
