use omnidl::auth::{
    clear_cookie, cookie, digest, generate, hex, new_token, resolve, same_secret, session_cookie, Auth, Login, Origin,
    Sessions, COOKIE, MAX_SESSIONS, SESSION_SECS,
};

#[test]
fn secrets_compare_exactly() {
    assert!(same_secret("abc", "abc"));
    assert!(!same_secret("abc", "abd"));
    assert!(!same_secret("abc", "abcd"));
    assert!(!same_secret("", "x"));
}

#[test]
fn generated_passwords_are_long_and_readable() {
    let p = generate();
    assert_eq!(p.len(), 23, "{p}");
    let groups: Vec<&str> = p.split('-').collect();
    assert_eq!(groups.len(), 4);
    assert!(groups.iter().all(|g| g.len() == 5));
    assert!(!p.contains(['0', 'o', '1', 'l', 'i']), "keine Verwechsler: {p}");
    assert_ne!(generate(), generate());
}

#[test]
fn cookie_flags() {
    let auth = Auth::new(Some("pw".into()), false);
    let c = auth.cookie("t", false);
    assert!(c.contains("HttpOnly") && c.contains("SameSite=Strict") && c.contains("Path=/"), "{c}");
    assert!(!c.contains("Secure"));
    assert!(auth.cookie("t", true).ends_with("; Secure"), "hinter HTTPS-Proxy");
    assert!(Auth::new(None, true).cookie("t", false).ends_with("; Secure"), "--secure-cookie");
    assert!(Auth::new(None, false).allows(None, 0), "ohne Passwort offen");
    assert!(cookie("t", true).ends_with("; Secure"));
    assert_eq!(c, "omnidl_session=t; Path=/; Max-Age=2592000; HttpOnly; SameSite=Strict");
    assert_eq!(clear_cookie(), "omnidl_session=; Path=/; Max-Age=0; HttpOnly; SameSite=Strict");
}

#[test]
fn digests_are_sha256() {
    assert_eq!(hex(&digest("abc")), "ba7816bf8f01cfea414140de5dae2223b00361a396177a9cb410ff61f20015ad");
    assert_eq!(hex(&[0, 15, 255]), "000fff");
}

#[test]
fn the_password_comes_from_the_flag_then_the_file() {
    assert!(matches!(resolve(Some("pw".into()), false, Some("alt".into())), Some((ref p, Origin::Given)) if p == "pw"));
    assert!(matches!(resolve(None, false, Some("alt".into())), Some((ref p, Origin::Stored)) if p == "alt"));
    assert!(resolve(None, true, None).is_none(), "nur lokal: ohne Passwort");
    assert!(matches!(resolve(None, false, None), Some((ref p, Origin::Generated)) if p.len() == 23));
}

#[test]
fn session_cookies_are_found_among_others() {
    let values = vec!["a=1; omnidl_session=tok".to_string()];
    assert_eq!(session_cookie(&values).as_deref(), Some("tok"));
    assert_eq!(session_cookie(&["omnidl_session=".to_string()]), None);
    assert_eq!(session_cookie(&[]), None);
}

#[test]
fn sessions_after_login_only() {
    let mut auth = Auth::new(Some("pw".into()), false);
    assert!(!auth.allows(None, 0));
    assert!(matches!(auth.login("falsch", 0), Login::Wrong));
    let Login::Accepted(token) = auth.login("pw", 0) else { panic!("Anmeldung klappt") };
    assert_eq!(token.len(), 64);
    let headers = vec![format!("theme=dark; {COOKIE}={token}")];
    let t = session_cookie(&headers);
    assert!(auth.allows(t.as_deref(), 1));
    let other = vec![format!("{COOKIE}={}", "0".repeat(64))];
    assert!(!auth.allows(session_cookie(&other).as_deref(), 1));
    let empty = vec![format!("{COOKIE}=")];
    assert!(!auth.allows(session_cookie(&empty).as_deref(), 1));
    auth.logout(t.as_deref());
    assert!(!auth.allows(t.as_deref(), 1), "abgemeldet");
}

#[test]
fn logins_expire() {
    let mut auth = Auth::new(Some("pw".into()), false);
    let Login::Accepted(token) = auth.login("pw", 100) else { panic!("Anmeldung klappt") };
    assert!(auth.allows(Some(&token), 100 + SESSION_SECS - 1));
    assert!(!auth.allows(Some(&token), 100 + SESSION_SECS));
}

#[test]
fn a_full_store_drops_the_oldest_login() {
    let mut s = Sessions::new();
    for i in 0..MAX_SESSIONS {
        s.open(&digest(&format!("t{i}")), i as u64);
    }
    assert!(s.allows(&digest("t0"), 300));
    s.open(&digest("new"), 300);
    assert!(!s.allows(&digest("t0"), 300), "die älteste Anmeldung weicht");
    assert!(s.allows(&digest("t1"), 300));
    assert!(s.allows(&digest("new"), 300));
    s.forget(&digest("t1"));
    assert!(!s.allows(&digest("t1"), 300));
}

#[test]
fn tokens_are_hex() {
    let t = new_token();
    assert_eq!(t.len(), 64);
    assert!(t.chars().all(|c| c.is_ascii_hexdigit() && !c.is_ascii_uppercase()));
    assert_ne!(t, new_token());
}
