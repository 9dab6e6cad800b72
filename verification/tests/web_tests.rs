use tether::auth::AuthManager;
use tether::web::{
    asset_path, bind_address, check_access, static_asset, has_text, lan_url, login, login_error_page, public_path,
    qr_art, qr_art_lines, qr_svg, session_cookie, Access, LoginReply,
};

#[test]
fn public_paths() {
    for p in ["/auth", "/login", "/api/qr", "/css/style.css", "/js/app.js", "/assets/x.png"] {
        assert!(public_path(p), "{}", p);
    }
    for p in ["/", "/ws", "/api/terminals", "/authx", "/css", "/jsx/a"] {
        assert!(!public_path(p), "{}", p);
    }
}

#[test]
fn access_without_password_is_open() {
    let mut auth = AuthManager::new();
    assert!(matches!(check_access(&mut auth, "/api/terminals", None, None), Access::Pass));
}

#[test]
fn access_with_password_needs_session() {
    let mut auth = AuthManager::new();
    auth.set_password("pw").unwrap();
    assert!(matches!(check_access(&mut auth, "/login", None, None), Access::Pass));
    assert!(matches!(check_access(&mut auth, "/", None, None), Access::RedirectToLogin));
    assert!(matches!(check_access(&mut auth, "/api/terminals", None, Some("application/json")), Access::Unauthorized));
    assert!(matches!(
        check_access(&mut auth, "/api/terminals", None, Some("text/html,application/xhtml+xml")),
        Access::RedirectToLogin
    ));
    assert!(matches!(check_access(&mut auth, "/ws", Some("bogus"), None), Access::Unauthorized));
    let token = auth.authenticate("pw", "127.0.0.1").unwrap();
    assert!(matches!(check_access(&mut auth, "/ws", Some(&token), None), Access::Pass));
    assert!(matches!(check_access(&mut auth, "/", Some(&token), None), Access::Pass));
}

#[test]
fn login_replies() {
    let mut auth = AuthManager::new();
    auth.set_password("pw").unwrap();
    match login(&mut auth, "pw", "127.0.0.1") {
        LoginReply::Granted { cookie } => {
            assert!(cookie.starts_with("session_token="));
            assert!(cookie.ends_with("; HttpOnly; SameSite=Strict; Path=/; Max-Age=604800"));
            let token = &cookie["session_token=".len()..cookie.len() - "; HttpOnly; SameSite=Strict; Path=/; Max-Age=604800".len()];
            assert!(auth.validate_session(token));
        }
        LoginReply::Refused { .. } => panic!("expected a session"),
    }
    match login(&mut auth, "nope", "10.1.1.1") {
        LoginReply::Refused { page } => {
            assert!(page.contains("<p class=\"error\">Invalid password</p>"));
            assert!(page.starts_with("<!DOCTYPE html>"));
        }
        LoginReply::Granted { .. } => panic!("expected a refusal"),
    }
}

#[test]
fn each_peer_address_counts_separately() {
    let mut auth = AuthManager::new();
    auth.set_password("pw").unwrap();
    for _ in 0..5 {
        assert!(matches!(login(&mut auth, "bad", "9.9.9.9"), LoginReply::Refused { .. }));
    }
    match login(&mut auth, "pw", "9.9.9.9") {
        LoginReply::Refused { page } => assert!(page.contains("Too many failed attempts. Please try again later.")),
        LoginReply::Granted { .. } => panic!("expected a lock-out"),
    }
    assert!(matches!(login(&mut auth, "pw", "127.0.0.1"), LoginReply::Granted { .. }));
}

#[test]
fn cookie_and_page_text() {
    assert_eq!(session_cookie("abc"), "session_token=abc; HttpOnly; SameSite=Strict; Path=/; Max-Age=604800");
    let page = login_error_page("boom");
    assert!(page.contains("<h2>\u{1FAA2} Tether</h2>"));
    assert!(page.ends_with("<a href=\"/login\">\u{2190} Back to login</a>\n                </div></body></html>"));
    assert!(page.contains("boom"));
}

#[test]
fn addresses() {
    assert_eq!(bind_address(false, 8080), "127.0.0.1:8080");
    assert_eq!(bind_address(true, 3000), "0.0.0.0:3000");
    assert_eq!(lan_url("192.168.1.5", 8080), "http://192.168.1.5:8080");
}

#[test]
fn asset_paths() {
    assert_eq!(asset_path("/css/style.css"), Some("css/style.css".to_string()));
    assert_eq!(asset_path("//x"), Some("x".to_string()));
    assert_eq!(asset_path("/"), None);
    assert_eq!(asset_path(""), None);
    let css = static_asset("/css/style.css").unwrap();
    assert_eq!(css.path, "css/style.css");
    assert_eq!(css.content_type, "text/css");
    assert_eq!(static_asset("/js/app.js").unwrap().content_type, "text/javascript");
    assert_eq!(static_asset("/blob.unknownext").unwrap().content_type, "application/octet-stream");
    assert!(static_asset("///").is_none());
    assert!(static_asset("/../etc/passwd").is_none());
    assert!(static_asset("/css/../../secret").is_none());
    assert!(static_asset("/a/..").is_none());
    assert_eq!(static_asset("/a/..b/c.css").unwrap().path, "a/..b/c.css");
    assert_eq!(static_asset("/..x").unwrap().path, "..x");
}

#[test]
fn text_search() {
    assert!(has_text("text/html,*/*", "text/html"));
    assert!(!has_text("text/htm", "text/html"));
    assert!(has_text("", ""));
}

#[test]
fn qr_codes() {
    let svg = qr_svg(None).unwrap();
    assert!(svg.contains("<svg"));
    assert!(svg.contains("#000000"));
    let long = "x".repeat(5000);
    assert!(qr_svg(Some(&long)).is_none());
    let art = qr_art("http://192.168.1.5:8080").unwrap();
    assert!(!art.is_empty());
    let w = art[0].chars().count();
    assert_eq!(art.len(), (w + 1) / 2);
    assert!(qr_art(&long).is_none());
}

#[test]
fn qr_capacity_depends_on_segmenting_not_only_on_length() {
    // 2331 bytes of byte-mode text fit a version-40 code at level M exactly.
    let plain = "a".repeat(2331);
    assert!(qr_svg(Some(&plain)).is_some());
    // The same length with a short digit run inside does not: the encoder gives the digits a
    // segment of their own, whose extra header overflows the capacity.
    let mixed = format!("{}1234567{}", "a".repeat(1000), "b".repeat(1324));
    assert_eq!(mixed.len(), 2331);
    assert!(qr_svg(Some(&mixed)).is_none());
    assert!(qr_art(&mixed).is_none());
}

#[test]
fn block_drawing() {
    // A 3x3 grid: rows "X.X", ".X.", "XX."
    let m = vec![true, false, true, false, true, false, true, true, false];
    let lines = qr_art_lines(3, &m);
    assert_eq!(lines, vec!["\u{2580}\u{2584}\u{2580}", "\u{2580}\u{2580} "]);
}
