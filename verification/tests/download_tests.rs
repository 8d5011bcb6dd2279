use seekman::download::{
    all_mirrors_failed, attempt_message, begin_mirror, mirror_error, on_chunk, on_response, range_header,
    resume_range, stall_error, AttemptStage, DOWNLOAD_STALL_TIMEOUT_SECS,
};
use seekman::oauth::{token_cache_at, token_source, token_source_at, TokenCache, TokenSource};
use seekman::settings::{queue_limit, stable_dir_choice, Settings};

#[test]
fn fresh_attempt_counts_cached_bytes() {
    let p = begin_mirror(300, Some(1000));
    assert_eq!((p.start, p.downloaded, p.total_bytes), (300, 300, Some(1000)));
}

#[test]
fn resumed_download_gets_partial_content() {
    let mut p = begin_mirror(300, None);
    let plan = on_response(&mut p, 206, Some(700));
    assert!(!plan.restart && plan.accepted);
    assert_eq!(p.total_bytes, Some(1000));
    on_chunk(&mut p, 200);
    on_chunk(&mut p, 500);
    assert_eq!(p.downloaded, 1000);
}

#[test]
fn whole_file_answer_restarts() {
    let mut p = begin_mirror(300, Some(5));
    let plan = on_response(&mut p, 200, Some(900));
    assert!(plan.restart && plan.accepted);
    assert_eq!((p.start, p.downloaded, p.total_bytes), (0, 0, Some(900)));
    let mut p = begin_mirror(0, None);
    let plan = on_response(&mut p, 200, None);
    assert!(!plan.restart && plan.accepted);
    assert_eq!(p.total_bytes, None);
}

#[test]
fn failed_answers_are_not_accepted() {
    let mut p = begin_mirror(10, Some(50));
    let plan = on_response(&mut p, 404, Some(12));
    assert!(!plan.accepted && !plan.restart);
    assert_eq!((p.start, p.downloaded, p.total_bytes), (10, 10, Some(50)));
    let plan = on_response(&mut p, 503, None);
    assert!(!plan.accepted);
    let plan = on_response(&mut p, 204, Some(0));
    assert!(plan.accepted);
    assert_eq!(p.total_bytes, Some(0));
}

#[test]
fn messages() {
    assert_eq!(range_header(1234), "bytes=1234-");
    assert_eq!(attempt_message("Catboy", &AttemptStage::Preparing), "Catboy: preparing request");
    assert_eq!(attempt_message("Catboy", &AttemptStage::Sending), "Catboy: sending request");
    assert_eq!(attempt_message("Catboy", &AttemptStage::FailedTryingNext), "Catboy failed, trying next mirror");
    assert_eq!(
        attempt_message("Catboy", &AttemptStage::Http("404 Not Found".to_string())),
        "Catboy: HTTP 404 Not Found"
    );
    assert_eq!(attempt_message("Catboy", &AttemptStage::OpeningCache), "Catboy: opening cache");
    assert_eq!(attempt_message("Catboy", &AttemptStage::WaitingForData), "Catboy: waiting for data");
    assert_eq!(attempt_message("Catboy", &AttemptStage::StalledSwitching), "Catboy stalled, switching mirror");
    assert_eq!(attempt_message("Catboy", &AttemptStage::FailedSwitching), "Catboy failed, switching mirror");
    assert_eq!(mirror_error("Sayobot", "response timeout"), "Sayobot: response timeout");
    assert_eq!(stall_error("Sayobot"), "Sayobot: stalled for 30 seconds");
    assert_eq!(DOWNLOAD_STALL_TIMEOUT_SECS, 30);
}

#[test]
fn all_failed_joins_errors() {
    assert_eq!(all_mirrors_failed(&Vec::new()), "all mirrors failed: ");
    let errors = vec!["A: HTTP 500".to_string(), "B: response timeout".to_string()];
    assert_eq!(all_mirrors_failed(&errors), "all mirrors failed: A: HTTP 500; B: response timeout");
}

fn settings_with(bearer: &str, id: &str, secret: &str) -> Settings {
    let mut s = Settings::default();
    s.bearer_token = bearer.to_string();
    s.osu_client_id = id.to_string();
    s.osu_client_secret = secret.to_string();
    s
}

#[test]
fn bearer_token_wins() {
    let s = settings_with("  abc  ", "1", "x");
    match token_source_at(&s, &None, 0).unwrap() {
        TokenSource::Bearer(t) => assert_eq!(t, "abc"),
        _ => panic!("expected the bearer token"),
    }
}

#[test]
fn cached_token_until_a_minute_before_expiry() {
    let s = settings_with("", "17", "secret");
    let cache = Some(TokenCache { token: "cached".to_string(), expires_at_ms: 100_000 });
    match token_source_at(&s, &cache, 39_999).unwrap() {
        TokenSource::Cached(t) => assert_eq!(t, "cached"),
        _ => panic!("expected the cached token"),
    }
    match token_source_at(&s, &cache, 40_000).unwrap() {
        TokenSource::Request { client_id, client_secret } => {
            assert_eq!(client_id, 17);
            assert_eq!(client_secret, "secret");
        }
        _ => panic!("expected a token request"),
    }
}

#[test]
fn token_errors() {
    let s = settings_with("", " ", "secret");
    assert_eq!(
        token_source_at(&s, &None, 0).err().unwrap(),
        "Please fill osu! OAuth Client ID and Client Secret, or paste a Bearer Token."
    );
    let s = settings_with("", "abc", "secret");
    assert_eq!(token_source_at(&s, &None, 0).err().unwrap(), "Client ID must be numeric");
    let s = settings_with("", " 12 ", "secret");
    assert!(matches!(token_source(&s, &None), Ok(TokenSource::Request { client_id: 12, .. })));
}

#[test]
fn token_cache_expiry() {
    let c = token_cache_at("t".to_string(), Some(86400), 1_000);
    assert_eq!(c.token, "t");
    assert_eq!(c.expires_at_ms, 1_000 + 86_400_000);
    let c = token_cache_at("t".to_string(), None, 0);
    assert_eq!(c.expires_at_ms, 3_600_000);
}

#[test]
fn stable_dir_choice_prefers_input() {
    let mut s = Settings::default();
    assert_eq!(stable_dir_choice(None, &s).err().unwrap(), "请先选择 osu!stable 根目录。");
    s.stable_osu_dir = "C:/osu!".to_string();
    assert_eq!(stable_dir_choice(None, &s).unwrap(), "C:/osu!");
    assert_eq!(stable_dir_choice(Some("  ".to_string()), &s).unwrap(), "C:/osu!");
    assert_eq!(stable_dir_choice(Some("D:/osu".to_string()), &s).unwrap(), "D:/osu");
}

#[test]
fn queue_limit_clamps() {
    let mut s = Settings::default();
    assert_eq!(queue_limit(&s), 8);
    s.concurrent_downloads = 0;
    assert_eq!(queue_limit(&s), 1);
    s.concurrent_downloads = 500;
    assert_eq!(queue_limit(&s), 64);
}

#[test]
fn resumed_requests_ask_for_the_rest() {
    assert_eq!(resume_range(&begin_mirror(0, None)), None);
    assert_eq!(resume_range(&begin_mirror(4096, None)), Some("bytes=4096-".to_string()));
}
