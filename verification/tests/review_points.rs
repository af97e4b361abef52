use pawbae_core::asset::{asset_headers, plan_asset_response};
use pawbae_core::clock::{day_before_exec, fourteen_report_days};
use pawbae_core::codex_pet::{check_pet_folder, check_pet_sheet};
use pawbae_core::hook_session::{is_listed, listed_positions, new_session};
use pawbae_core::media::media_kind;
use pawbae_core::messages::strip_brackets;
use pawbae_core::sessions::agent_has_open_transcript;

fn pair(a: &str, b: &str) -> (String, String) {
    (a.to_string(), b.to_string())
}

#[test]
fn report_days_follow_the_server_date() {
    let d = fourteen_report_days(Some("2024-03-10"), "2030-01-01").unwrap();
    assert_eq!(d.len(), 14);
    assert_eq!(d[0], "2024-02-26");
    assert_eq!(d[1], "2024-02-27");
    assert_eq!(d[13], "2024-03-10");
}

#[test]
fn report_days_fall_back_to_the_local_date() {
    let d = fourteen_report_days(None, "2024-01-05").unwrap();
    assert_eq!(d[0], "2023-12-23");
    assert_eq!(d[13], "2024-01-05");
    let e = fourteen_report_days(Some("not a date"), "2024-01-05").unwrap();
    assert_eq!(d, e);
    assert!(fourteen_report_days(Some("x"), "y").is_none());
}

#[test]
fn day_before_reaches_far_back() {
    assert_eq!(day_before_exec(0, 1000), "1967-04-07");
}

#[test]
fn partial_answer_headers() {
    let plan = plan_asset_response("clip.mp4", 10, Some("bytes=2-4"));
    let h = asset_headers(&plan, true);
    assert_eq!(
        h,
        vec![
            pair("Content-Type", "video/mp4"),
            pair("Content-Length", "3"),
            pair("Accept-Ranges", "bytes"),
            pair("Content-Range", "bytes 2-4/10"),
            pair("Access-Control-Allow-Origin", "*"),
        ]
    );
}

#[test]
fn whole_answer_headers() {
    let plan = plan_asset_response("a.png", 7, None);
    let h = asset_headers(&plan, false);
    assert_eq!(
        h,
        vec![pair("Content-Type", "image/png"), pair("Content-Length", "7"), pair("Accept-Ranges", "bytes")]
    );
}

#[test]
fn sessions_without_cwd_are_not_listed() {
    let a = new_session("a", "cc");
    let mut b = new_session("b", "cc");
    b.cwd = "/work".to_string();
    let mut c = new_session("c", "codex");
    c.cwd = "/x".to_string();
    assert!(!is_listed(&a));
    assert!(is_listed(&b));
    assert_eq!(listed_positions(&vec![a, b, c]), vec![1, 2]);
}

#[test]
fn pet_folder_checks() {
    assert_eq!(check_pet_folder("/tmp/p", false, true), Err("not a directory: /tmp/p".to_string()));
    assert_eq!(check_pet_folder("/tmp/p", true, false), Err("missing pet.json in dropped folder".to_string()));
    assert_eq!(check_pet_folder("/tmp/p", true, true), Ok(()));
    assert_eq!(
        check_pet_sheet("spritesheet.webp", false),
        Err("missing spritesheet in dropped folder: spritesheet.webp".to_string())
    );
    assert_eq!(check_pet_sheet("spritesheet.webp", true), Ok(()));
}

#[test]
fn agent_activity_from_open_transcripts() {
    let open = vec!["/h/.openclaw/agents/main/sessions/a.jsonl".to_string()];
    assert!(agent_has_open_transcript(&open, ""));
    assert!(agent_has_open_transcript(&open, "main"));
    assert!(!agent_has_open_transcript(&open, "ops"));
    assert!(!agent_has_open_transcript(&vec![], "main"));
}

#[test]
fn media_kinds() {
    assert_eq!(media_kind(Some((true, "com.spotify.client")), true, false, false), "music");
    assert_eq!(media_kind(Some((true, "com.google.chrome")), false, true, false), "video");
    assert_eq!(media_kind(Some((true, "something.else")), false, false, false), "music");
    assert_eq!(media_kind(Some((true, "com.apple.WebKit.GPU".to_lowercase().as_str())), false, true, false), "none");
    assert_eq!(media_kind(Some((false, "com.spotify.client")), true, false, true), "music");
    assert_eq!(media_kind(None, false, false, false), "none");
}

#[test]
fn strip_brackets_twice_is_once() {
    for t in ["  [[a]] hi [[b]] ", "x [[ y", "]] [[z]]]] end  ", ""] {
        let once = strip_brackets(t);
        assert_eq!(strip_brackets(&once), once);
        assert_eq!(once.trim(), once);
    }
}
