use shinnku::ai_search::{name_query, AiSearchProcessor, SearchRequest};
use shinnku::config::{default_listen, default_port, default_refresh_time};
use shinnku::download::{client_ip, download_step, DownloadStep, SourceLookup};
use shinnku::drivers::FileDownloadProviderName;
use shinnku::file_list::EqualFileDownloadSource;
use shinnku::file_meta::{found_documents, query_text, select_meta_field, FileMeta, SearchFileRequest};
use shinnku::hot::TopCountItem;
use shinnku::text::{is_white_space, split_on, split_whitespace};

fn strings(v: &[&str]) -> Vec<String> {
    v.iter().map(|s| s.to_string()).collect()
}

#[test]
fn config_defaults() {
    assert_eq!(default_listen(), "127.0.0.1");
    assert_eq!(default_port(), 8080);
    assert_eq!(default_refresh_time(), 3600);
}

#[test]
fn search_words_take_three_of_each() {
    let request = SearchFileRequest {
        user_request: "  alpha beta\tgamma delta ".to_string(),
        ai_extended_request: strings(&["x", "y", "z", "w"]),
    };
    assert_eq!(request.search_words(), strings(&["x", "y", "z", "alpha", "beta", "gamma"]));
    let short = SearchFileRequest { user_request: "only".to_string(), ai_extended_request: Vec::new() };
    assert_eq!(short.search_words(), strings(&["only"]));
}

#[test]
fn query_text_joins_with_spaces() {
    assert_eq!(query_text(&strings(&["a", "b", "c"])), "a b c");
    assert_eq!(query_text(&Vec::new()), "");
}

#[test]
fn white_space_matches_std() {
    for c in ['\t', '\n', ' ', '\u{85}', '\u{a0}', '\u{2003}', '\u{3000}', 'a', '-', '\u{200b}', '\u{feff}'] {
        assert_eq!(is_white_space(c), c.is_whitespace());
    }
    let s = "a\u{3000}b\u{2028}c  d";
    let std_words: Vec<String> = s.split_whitespace().map(|w| w.to_string()).collect();
    assert_eq!(split_whitespace(s), std_words);
}

#[test]
fn split_on_matches_std() {
    for s in ["a/b/c", "", "/", "a//b/", "abc"] {
        let std_pieces: Vec<String> = s.split('/').map(|w| w.to_string()).collect();
        assert_eq!(split_on(s, '/'), std_pieces);
    }
}

#[test]
fn meta_field_selection() {
    let fields = vec![(1u32, "name".to_string()), (2, "{meta}".to_string()), (2, "later".to_string())];
    assert_eq!(select_meta_field(&fields, 2), Some("{meta}".to_string()));
    assert_eq!(select_meta_field(&fields, 3), None);
}

#[test]
fn top_count_row() {
    let item = TopCountItem::from_row(Some(5), None);
    assert_eq!(item.game_id, 5);
    assert_eq!(item.count, 0);
    assert_eq!(TopCountItem::from_row(Some(5), Some(12)).count, 12);
}

#[test]
fn download_steps() {
    let source = EqualFileDownloadSource {
        provider: FileDownloadProviderName::OneDrive,
        token: "d=:=f".to_string(),
        cache_id: None,
    };
    match download_step(SourceLookup::Found(source)) {
        DownloadStep::Fetch(s) => assert_eq!(s.token, "d=:=f"),
        _ => panic!("a found source is fetched"),
    }
    assert!(matches!(download_step(SourceLookup::Missing), DownloadStep::NotFound));
    assert!(matches!(download_step(SourceLookup::Failed), DownloadStep::InternalError));
    assert_eq!(client_ip(Some("1.2.3.4")), "1.2.3.4");
    assert_eq!(client_ip(None), "unknown");
}

#[test]
fn assistant_query() {
    assert_eq!(name_query("clannad"), "?name=clannad");
}

#[test]
fn assistant_urls_are_resolved() {
    let processor = AiSearchProcessor::new("http://ai.example/api/".to_string());
    let (find, intro) = processor.request_urls(&SearchRequest { q: "clannad".to_string() }).unwrap();
    assert_eq!(find, "http://ai.example/api/findname?name=clannad");
    assert_eq!(intro, "http://ai.example/api/intro?name=clannad");

    let no_slash = AiSearchProcessor::new("http://ai.example/api".to_string());
    let (find, _) = no_slash.request_urls(&SearchRequest { q: "a b".to_string() }).unwrap();
    assert_eq!(find, "http://ai.example/findname?name=a%20b");

    let invalid = AiSearchProcessor::new("not a url".to_string());
    assert!(invalid.request_urls(&SearchRequest { q: "x".to_string() }).is_none());
}

#[test]
fn unreadable_documents_are_left_out() {
    let meta = |n: &str| FileMeta {
        categories: vec!["c".to_string()],
        file_name: n.to_string(),
        file_size: 1,
        upload_timestamp: 2,
        path: n.to_string(),
    };
    let kept = found_documents(vec![Some(meta("a")), None, Some(meta("b")), None]);
    let names: Vec<String> = kept.iter().map(|m| m.file_name.clone()).collect();
    assert_eq!(names, vec!["a".to_string(), "b".to_string()]);
    assert!(found_documents(vec![None]).is_empty());
}
