use rifs::auth::{
    extract_token, verify_token, AdminGuard, AuthConfig, AuthGuard, AuthRequest, AuthResponse, AuthenticatedUser,
    GuardError,
};
use rifs::digest::{cache_key, content_hash};
use rifs::mime::{detect_file_type, get_content_type, ImageFormat};
use rifs::quota::{TokenRepository, TokenRole};
use rifs::response::ApiResponse;
use rifs::token::{AuthError, TokenError, TokenService};

#[test]
fn content_hash_is_sha256_hex() {
    assert_eq!(content_hash(b"abc", None), "ba7816bf8f01cfea414140de5dae2223b00361a396177a9cb410ff61f20015ad");
    assert_eq!(TokenService::hash_token("abc"), "ba7816bf8f01cfea414140de5dae2223b00361a396177a9cb410ff61f20015ad");
    // The owner id is appended little-endian: "abc" followed by 1, 0, 0, 0.
    assert_ne!(content_hash(b"abc", Some(1)), content_hash(b"abc", None));
    assert_eq!(content_hash(b"abc", Some(1)), content_hash(&[b'a', b'b', b'c', 1, 0, 0, 0], None));
}

#[test]
fn cache_key_covers_hash_and_transform() {
    assert_eq!(cache_key("ab", "w1"), content_hash(b"ab@w1", None));
    assert_ne!(cache_key("ab", "w1"), cache_key("ab", "w2"));
}

#[test]
fn detects_image_signatures() {
    assert_eq!(detect_file_type(&[0x89, 0x50, 0x4e, 0x47, 0x0d, 0x0a, 0x1a, 0x0a]), Some(ImageFormat::Png));
    assert_eq!(detect_file_type(&[0xff, 0xd8, 0xff, 0xe0]), Some(ImageFormat::Jpeg));
    assert_eq!(detect_file_type(b"GIF89a...."), Some(ImageFormat::Gif));
    assert_eq!(detect_file_type(b"RIFF\0\0\0\0WEBPVP8 "), Some(ImageFormat::Webp));
    assert_eq!(detect_file_type(b"BM"), Some(ImageFormat::Bmp));
    assert_eq!(detect_file_type(b"GIF90a"), None);
    assert_eq!(detect_file_type(&[]), None);
    assert_eq!(ImageFormat::Jpeg.extension(), "jpg");
    assert_eq!(ImageFormat::Webp.mime_type(), "image/webp");
}

#[test]
fn content_type_by_extension() {
    assert_eq!(get_content_type("style.css"), "text/css; charset=utf-8");
    assert_eq!(get_content_type("js/app.js"), "application/javascript; charset=utf-8");
    assert_eq!(get_content_type("index.html"), "text/html; charset=utf-8");
    assert_eq!(get_content_type("a/b/photo.jpeg"), "image/jpeg");
    assert_eq!(get_content_type("icon.ico"), "image/x-icon");
    assert_eq!(get_content_type(".bashrc"), "application/octet-stream");
    assert_eq!(get_content_type("dir.css/readme"), "application/octet-stream");
    assert_eq!(get_content_type("archive.tar.gz"), "application/octet-stream");
    assert_eq!(get_content_type("nonexistent.css"), "text/css; charset=utf-8");
}

#[test]
fn generated_tokens_are_alphanumeric() {
    let a = TokenService::generate_token();
    let b = TokenService::generate_token();
    assert_eq!(a.len(), 48);
    assert!(a.chars().all(|c| c.is_ascii_alphanumeric()));
    assert_ne!(a, b);
}

#[test]
fn token_lifecycle() {
    let mut repo = TokenRepository::new();
    assert_eq!(
        TokenService::create_token(&mut repo, "   ", TokenRole::User, None, None, 0).err(),
        Some(TokenError::EmptyName)
    );
    let resp = TokenService::create_token(&mut repo, "  uploader ", TokenRole::User, Some(10), Some(1000), 5)
        .ok()
        .unwrap();
    assert_eq!(resp.token.name, "uploader");
    assert_eq!(resp.token.token_hash, TokenService::hash_token(&resp.plaintext));
    let padded = format!("  {}\n", resp.plaintext);
    let ok = TokenService::verify_plain_token(&mut repo, &padded, 10).unwrap();
    assert_eq!(ok.id, resp.token.id);
    assert_eq!(repo.tokens[0].last_used_at, Some(10));
    assert_eq!(TokenService::verify_plain_token(&mut repo, &resp.plaintext, 2000).err(), Some(AuthError::Expired));
    assert_eq!(TokenService::verify_plain_token(&mut repo, " ", 10).err(), Some(AuthError::EmptyToken));
    assert_eq!(TokenService::verify_plain_token(&mut repo, "nope", 10).err(), Some(AuthError::UnknownToken));
    repo.tokens[0].is_active = false;
    assert_eq!(TokenService::verify_plain_token(&mut repo, &resp.plaintext, 10).err(), Some(AuthError::Disabled));
    assert!(TokenService::find_by_token_hash(&repo, &resp.plaintext).is_some());
    assert_eq!(TokenService::get_token(&repo, 77).err(), Some(TokenError::NotFound));
}

#[test]
fn default_admin_only_when_empty() {
    let mut repo = TokenRepository::new();
    let p = TokenService::ensure_default_admin(&mut repo, 0).unwrap().unwrap();
    assert_eq!(p.len(), 48);
    assert_eq!(repo.count_admins(), 1);
    assert_eq!(TokenService::ensure_default_admin(&mut repo, 0).unwrap(), None);
    assert_eq!(repo.count_all(), 1);
}

fn auth_on(token: &str) -> AuthConfig {
    AuthConfig { enabled: true, token: Some(token.to_string()), header_name: "Authorization".to_string() }
}

#[test]
fn verify_token_response() {
    let off = AuthConfig { enabled: false, token: None, header_name: "X-Token".to_string() };
    let r = verify_token(&off, &AuthRequest { token: String::new() });
    assert!(r.success);
    assert_eq!(r.header_name.as_deref(), Some("X-Token"));
    let on = auth_on("secret");
    assert!(verify_token(&on, &AuthRequest { token: " secret ".to_string() }).success);
    let bad = verify_token(&on, &AuthRequest { token: "other".to_string() });
    assert!(!bad.success);
    assert!(bad.header_name.is_none());
    let unset = AuthConfig { enabled: true, token: None, header_name: "X".to_string() };
    assert!(!verify_token(&unset, &AuthRequest { token: "x".to_string() }).success);
}

#[test]
fn guards_accept_bearer_and_plain() {
    let on = auth_on("secret");
    assert!(AuthGuard::check(&on, true, Some("Bearer secret")).is_ok());
    assert!(AuthGuard::check(&on, true, Some("secret")).is_ok());
    assert!(AuthGuard::check(&on, false, Some(" secret ")).is_ok());
    assert_eq!(AuthGuard::check(&on, true, Some("Bearer nope")).err(), Some(GuardError::InvalidCredentials));
    assert_eq!(AuthGuard::check(&on, true, None).err(), Some(GuardError::InvalidCredentials));
    let blank = auth_on("  ");
    assert_eq!(AuthGuard::check(&blank, true, Some("x")).err(), Some(GuardError::NoConfiguredToken));
    let off = AuthConfig { enabled: false, token: None, header_name: "Authorization".to_string() };
    assert!(AuthGuard::check(&off, true, None).is_ok());

    let admin = AdminGuard::check(&off, true, None, 9).ok().unwrap();
    assert_eq!(admin.0.id, 0);
    assert_eq!(admin.0.role, TokenRole::Admin);
    assert_eq!(AdminGuard::check(&on, true, None, 9).err(), Some(GuardError::MissingCredentials));
    let a = AdminGuard::check(&on, true, Some("Bearer  secret "), 9).ok().unwrap();
    assert_eq!(a.0.last_used_at, Some(9));
    assert_eq!(AdminGuard::check(&on, true, Some("Bearer x"), 9).err(), Some(GuardError::InvalidCredentials));

    assert_eq!(AuthenticatedUser::check(&off, true, Some("secret"), 1).err(), Some(GuardError::AuthDisabled));
    assert!(AuthenticatedUser::check(&on, false, Some("secret"), 1).is_ok());
    assert_eq!(extract_token(" Bearer abc ", true), "abc");
    assert_eq!(extract_token("Bearer abc", false), "Bearer abc");
}

#[test]
fn response_envelopes() {
    let r = ApiResponse::success("ok", 5u32);
    assert!(r.success);
    assert_eq!(r.message, "ok");
    assert_eq!(r.data, Some(5));
    let o: ApiResponse<u32> = ApiResponse::success_with_option("none", None);
    assert!(o.data.is_none());
    let n = ApiResponse::success_no_data("done");
    assert_eq!(n.message, "done");
    assert!(n.data.is_none());
    let s = AuthResponse::success("in", "Authorization");
    assert_eq!(s.header_name.as_deref(), Some("Authorization"));
    let e = AuthResponse::error("no");
    assert!(!e.success);
    assert!(e.header_name.is_none());
}

#[test]
fn user_info_from_header() {
    let mut repo = TokenRepository::new();
    let resp = TokenService::create_token(&mut repo, "carol", TokenRole::User, None, None, 0).ok().unwrap();
    let on = AuthConfig { enabled: true, token: None, header_name: "Authorization".to_string() };
    let bearer = format!("Bearer {}", resp.plaintext);
    let info = rifs::auth::get_user_info(&on, &repo, true, Some(&bearer), 1).ok().unwrap();
    let user = info.data.unwrap();
    assert_eq!(user.name, "carol");
    assert_eq!(user.role, "user");
    assert_eq!(rifs::auth::get_user_info(&on, &repo, true, None, 1).err(), Some(AuthError::MissingToken));
    assert_eq!(rifs::auth::get_user_info(&on, &repo, true, Some("Bearer x"), 1).err(), Some(AuthError::UnknownToken));
    let off = AuthConfig { enabled: false, token: None, header_name: "Authorization".to_string() };
    assert_eq!(rifs::auth::get_user_info(&off, &repo, true, None, 1).ok().unwrap().data.unwrap().role, "admin");
    assert!(rifs::auth::get_auth_config(&on).enabled);
}

#[test]
fn header_token_resolves_stored_tokens() {
    let mut repo = TokenRepository::new();
    let resp = TokenService::create_token(&mut repo, "dave", TokenRole::Admin, None, Some(100), 0).ok().unwrap();
    let on = AuthConfig { enabled: true, token: None, header_name: "X-Api-Token".to_string() };
    let t = rifs::auth::verify_token_from_headers(&on, &repo, false, Some(&resp.plaintext), 50).unwrap();
    assert_eq!(t.id, resp.token.id);
    assert_eq!(
        rifs::auth::verify_token_from_headers(&on, &repo, false, Some(&resp.plaintext), 101).err(),
        Some(AuthError::Expired)
    );
    assert_eq!(TokenRole::from_name("admin"), TokenRole::Admin);
    assert_eq!(TokenRole::from_name("Admin"), TokenRole::User);
    assert_eq!(TokenRole::Admin.as_str(), "admin");
    let listed = TokenService::list_tokens(&repo);
    assert_eq!(listed.len(), 1);
}

#[test]
fn duplicate_digest_is_refused() {
    let mut repo = TokenRepository::new();
    let h = TokenService::hash_token("same");
    assert!(repo.insert("a".to_string(), h.clone(), TokenRole::User, None, None, 0).is_some());
    assert!(repo.insert("b".to_string(), h, TokenRole::User, None, None, 0).is_none());
    assert_eq!(repo.count_all(), 1);
}
