use pawbae_core::asset::{asset_file, asset_mime_for_path, plan_asset_response, requested_range};
use pawbae_core::codex_pet::{codex_asset_url, pet_entry, pet_fields, sort_pets, codex_pets_dir_in};
use pawbae_core::file_data::file_base64;
use pawbae_core::json::{Json, JsonNumber};
use pawbae_core::types::CodexPetMeta;
use serde_json::Value;

fn to_json(v: &Value) -> Json {
    match v {
        Value::Null => Json::Null,
        Value::Bool(b) => Json::Bool(*b),
        Value::Number(n) => Json::Num(JsonNumber { as_u64: n.as_u64(), text: n.to_string() }),
        Value::String(s) => Json::Str(s.clone()),
        Value::Array(a) => Json::Array(a.iter().map(to_json).collect()),
        Value::Object(o) => Json::Object(o.iter().map(|(k, v)| (k.clone(), to_json(v))).collect()),
    }
}

fn parse(s: &str) -> Json {
    to_json(&serde_json::from_str::<Value>(s).unwrap())
}

#[test]
fn mime_types_by_extension() {
    assert_eq!(asset_mime_for_path("a/b.GIF"), "image/gif");
    assert_eq!(asset_mime_for_path("x.png"), "image/png");
    assert_eq!(asset_mime_for_path("x.JPEG"), "image/jpeg");
    assert_eq!(asset_mime_for_path("x.jpg"), "image/jpeg");
    assert_eq!(asset_mime_for_path("x.webp"), "image/webp");
    assert_eq!(asset_mime_for_path("x.webm"), "video/webm");
    assert_eq!(asset_mime_for_path("x.mp4"), "video/mp4");
    assert_eq!(asset_mime_for_path("x.MOV"), "video/quicktime");
    assert_eq!(asset_mime_for_path("x.txt"), "application/octet-stream");
    assert_eq!(asset_mime_for_path("png"), "application/octet-stream");
}

#[test]
fn byte_ranges() {
    assert_eq!(requested_range(100, None), None);
    assert_eq!(requested_range(100, Some("bytes=0-9")), Some((0, 9)));
    assert_eq!(requested_range(100, Some("bytes=90-")), Some((90, 99)));
    assert_eq!(requested_range(100, Some("bytes=90-500")), Some((90, 99)));
    assert_eq!(requested_range(100, Some("bytes=-10")), Some((90, 99)));
    assert_eq!(requested_range(100, Some("bytes=-500")), Some((0, 99)));
    assert_eq!(requested_range(100, Some("bytes=100-")), None);
    assert_eq!(requested_range(100, Some("bytes=5-2")), None);
    assert_eq!(requested_range(100, Some("items=0-9")), None);
    assert_eq!(requested_range(0, Some("bytes=0-9")), None);
    assert_eq!(requested_range(100, Some("bytes=a-9")), None);
}

#[test]
fn asset_answers() {
    let full = plan_asset_response("pet.webm", 100, None);
    assert_eq!(full.status, 200);
    assert_eq!(full.mime, "video/webm");
    assert_eq!((full.start, full.end), (0, 100));
    assert_eq!(full.content_range, None);
    let part = plan_asset_response("pet.webm", 100, Some("bytes=10-19"));
    assert_eq!(part.status, 206);
    assert_eq!((part.start, part.end), (10, 20));
    assert_eq!(part.content_range.as_deref(), Some("bytes 10-19/100"));
}

#[test]
fn asset_paths_are_decoded_and_joined() {
    let (decoded, file) = asset_file("/assets", "/pets/my%20pet/a.webp");
    assert_eq!(decoded, "/pets/my pet/a.webp");
    assert_eq!(file, "/assets/pets/my pet/a.webp");
    let (d2, f2) = asset_file("/assets/", "//x.png");
    assert_eq!(d2, "//x.png");
    assert_eq!(f2, "/assets/x.png");
}

#[test]
fn pet_metadata_defaults() {
    let f = pet_fields(&parse(r#"{"displayName":"Cat"}"#), "cat-folder");
    assert_eq!(f.id, "cat-folder");
    assert_eq!(f.display_name, "Cat");
    assert_eq!(f.description, "");
    assert_eq!(f.sheet_path, "spritesheet.webp");
    let g = pet_fields(&parse(r#"{"id":"dog","description":"woof","spritesheetPath":"s.png"}"#), "x");
    assert_eq!(g.display_name, "dog");
    assert_eq!(g.sheet_path, "s.png");
}

#[test]
fn pet_urls() {
    assert_eq!(
        codex_asset_url("/home/me/.codex/pets", "/home/me/.codex/pets/my cat/sheet.webp", false),
        "codexpet://localhost/my%20cat/sheet%2Ewebp"
    );
    assert_eq!(
        codex_asset_url("/home/me/.codex/pets", "/home/me/.codex/pets/cat/a", true),
        "http://codexpet.localhost/cat/a"
    );
    assert_eq!(codex_asset_url("/home/me/.codex/pets", "/elsewhere/a.webp", false), "");
    let (meta, sheet) = pet_entry("/p", "cat", &parse(r#"{"displayName":"Kit"}"#), false);
    assert_eq!(sheet, "/p/cat/spritesheet.webp");
    assert_eq!(meta.id, "cat");
    assert_eq!(meta.display_name, "Kit");
    assert_eq!(meta.spritesheet_url, "codexpet://localhost/cat/spritesheet%2Ewebp");
    let (m2, s2) = pet_entry("/p", "folder1", &parse(r#"{"id":"dog","spritesheetPath":"s.png"}"#), false);
    assert_eq!(m2.id, "dog");
    assert_eq!(s2, "/p/folder1/s.png");
}

fn pet(name: &str) -> CodexPetMeta {
    CodexPetMeta {
        id: name.to_lowercase(),
        display_name: name.to_string(),
        description: String::new(),
        spritesheet_url: String::new(),
    }
}

#[test]
fn pets_sort_by_name_ignoring_case() {
    let v = vec![pet("mango"), pet("Zebra"), pet("apple"), pet("Banana")];
    let names: Vec<String> = sort_pets(v).into_iter().map(|p| p.display_name).collect();
    assert_eq!(names, vec!["apple", "Banana", "mango", "Zebra"]);
}

#[test]
fn files_encode_as_base64() {
    assert_eq!(file_base64(&b"hello".to_vec()), "aGVsbG8=");
    assert_eq!(file_base64(&b"hi".to_vec()), "aGk=");
    assert_eq!(file_base64(&b"abc".to_vec()), "YWJj");
    assert_eq!(file_base64(&Vec::new()), "");
    assert_eq!(file_base64(&vec![0xff, 0xfe, 0x00, 0x3e]), "//4APg==");
}

#[test]
fn codex_pets_dir_sits_under_home() {
    assert_eq!(codex_pets_dir_in("/home/u"), "/home/u/.codex/pets");
    assert_eq!(codex_pets_dir_in("/home/u/"), "/home/u/.codex/pets");
}
