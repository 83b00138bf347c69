use share_one_list::encoding::encode_item_path;
use share_one_list::share_links::{
    link_from_parts, parse_personal_layout_url, parse_sharepoint_url, parse_short_share_url,
};

#[test]
fn test_short_share_url_word() {
    let url = "https://contoso-my.sharepoint.com/:w:/p/john_doe/EaBcDeFgHiJ";
    let result = parse_sharepoint_url(url);
    assert_eq!(
        result,
        Some("https://contoso-my.sharepoint.com/personal/john_doe/_layouts/52/download.aspx?share=EaBcDeFgHiJ".to_string())
    );
}

#[test]
fn test_short_share_url_excel() {
    let url = "https://contoso-my.sharepoint.com/:x:/p/jane_smith/XyZaBcDeFgH";
    let result = parse_sharepoint_url(url);
    assert_eq!(
        result,
        Some("https://contoso-my.sharepoint.com/personal/jane_smith/_layouts/52/download.aspx?share=XyZaBcDeFgH".to_string())
    );
}

#[test]
fn test_short_share_url_china() {
    let url = "https://contoso-my.sharepoint.cn/:b:/p/user1/AbCdEfGhIjK";
    let result = parse_sharepoint_url(url);
    assert_eq!(
        result,
        Some("https://contoso-my.sharepoint.cn/personal/user1/_layouts/52/download.aspx?share=AbCdEfGhIjK".to_string())
    );
}

#[test]
fn test_folder_link_returns_none() {
    let url = "https://contoso-my.sharepoint.com/:f:/p/john_doe/EaBcDeFgHiJ";
    let result = parse_sharepoint_url(url);
    assert_eq!(result, None);
}

#[test]
fn test_non_sharepoint_url_returns_none() {
    let url = "https://www.google.com/search?q=hello";
    let result = parse_sharepoint_url(url);
    assert_eq!(result, None);
}

#[test]
fn test_personal_layout_url_with_share() {
    let url = "https://contoso-my.sharepoint.com/personal/john_doe/_layouts/15/onedrive.aspx?id=%2Fpersonal&e=AbCdEfGh";
    let result = parse_sharepoint_url(url);
    assert_eq!(
        result,
        Some("https://contoso-my.sharepoint.com/personal/john_doe/_layouts/52/download.aspx?share=AbCdEfGh".to_string())
    );
}

#[test]
fn test_personal_layout_url_without_share_returns_none() {
    let url = "https://contoso-my.sharepoint.com/personal/john_doe/_layouts/15/onedrive.aspx?id=%2Fpersonal%2Fjohn_doe%2FDocuments%2Ffile.docx";
    let result = parse_sharepoint_url(url);
    assert_eq!(result, None);
}

#[test]
fn test_malformed_url_returns_none() {
    let result = parse_sharepoint_url("not a url");
    assert_eq!(result, None);
}

#[test]
fn item_path_encoding_escapes_url_meaningful_characters() {
    assert_eq!(encode_item_path("/Recordings/My meeting"), "/Recordings/My%20meeting");
    assert_eq!(encode_item_path("/Recordings/Review #3"), "/Recordings/Review%20%233");
    assert_eq!(
        encode_item_path("/Recordings/Q3-review_final.v2"),
        "/Recordings/Q3-review_final.v2"
    );
}

#[test]
fn item_path_encoding_encodes_utf8_bytes_per_segment() {
    assert_eq!(encode_item_path("/会议/a&b"), "/%E4%BC%9A%E8%AE%AE/a%26b");
    assert_eq!(encode_item_path(""), "");
}

#[test]
fn short_share_needs_four_segments_and_a_file_marker() {
    assert_eq!(parse_short_share_url("h.sharepoint.com", "/:w:/p/user"), None);
    assert_eq!(parse_short_share_url("h.sharepoint.com", "/:ww:/p/user/id"), None);
    assert_eq!(parse_short_share_url("h.sharepoint.com", "/w/p/user/id"), None);
    assert_eq!(
        parse_short_share_url("h.sharepoint.com", "//:v:/g//guest/tok/extra"),
        Some("https://h.sharepoint.com/personal/guest/_layouts/52/download.aspx?share=tok".to_string())
    );
}

#[test]
fn personal_layout_takes_first_share_or_e_token_and_any_case() {
    let pairs = vec![
        ("id".to_string(), "x".to_string()),
        ("share".to_string(), "S1".to_string()),
        ("e".to_string(), "E2".to_string()),
    ];
    assert_eq!(
        parse_personal_layout_url("t.sharepoint.com", "/Personal/Alice/Docs", &pairs),
        Some("https://t.sharepoint.com/personal/Alice/_layouts/52/download.aspx?share=S1".to_string())
    );
    assert_eq!(parse_personal_layout_url("t.sharepoint.com", "/personal/", &pairs), None);
    assert_eq!(parse_personal_layout_url("t.sharepoint.com", "/sites/x", &pairs), None);
}

#[test]
fn link_from_parts_requires_a_sharepoint_host() {
    let pairs: Vec<(String, String)> = vec![("e".to_string(), "T".to_string())];
    assert_eq!(link_from_parts(&None, "/personal/u/x", &pairs), None);
    assert_eq!(
        link_from_parts(&Some("onedrive.live.com".to_string()), "/personal/u/x", &pairs),
        None
    );
    assert_eq!(
        link_from_parts(&Some("c-my.sharepoint.cn".to_string()), "/personal/u/x", &pairs),
        Some("https://c-my.sharepoint.cn/personal/u/_layouts/52/download.aspx?share=T".to_string())
    );
}
