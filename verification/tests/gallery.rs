use omnidl::gallery::{args, folder_name, read_line, run_end, target_dir, Line};

#[test]
fn derives_folder_names() {
    assert_eq!(folder_name("https://www.tiktok.com/@user/photo/7391?is=1"), "tiktok_user_7391");
    assert_eq!(folder_name("https://www.instagram.com/p/AbC123/"), "instagram_AbC123");
}

#[test]
fn folder_names_without_path_or_scheme() {
    assert_eq!(folder_name("https://x.com"), "x_post");
    assert_eq!(folder_name("example.org/a/b#frag"), "example_b");
    assert_eq!(folder_name("https://www.www.site.com/@@me/1/"), "site_me_1");
}

#[test]
fn output_lines_are_sorted_out() {
    assert_eq!(read_line(false, "/dl/x/1.jpg"), Line::File);
    assert_eq!(read_line(false, "# skipped"), Line::Other);
    assert_eq!(read_line(false, "   "), Line::Other);
    assert_eq!(read_line(true, " [error] HTTP 404 "), Line::Error("[error] HTTP 404".into()));
    assert_eq!(read_line(true, "[warning] HTTP 429"), Line::Warning("[warning] HTTP 429".into()));
    assert_eq!(read_line(true, "[info] nothing"), Line::Other);
}

#[test]
fn runs_without_files_say_why() {
    assert_eq!(run_end(2, false, None, None), Ok(()));
    assert_eq!(run_end(0, true, None, None), Err("nichts zum Herunterladen gefunden".into()));
    assert_eq!(run_end(0, false, None, None), Err("gallery-dl ist fehlgeschlagen".into()));
    assert_eq!(run_end(0, false, Some("[error] x".into()), Some("[warning] 429".into())), Err("[error] x ([warning] 429)".into()));
}

#[test]
fn gallery_dl_gets_its_folder_and_cookies() {
    let url = "https://www.instagram.com/p/AbC123/";
    let target = target_dir("/home/a/Downloads", url, false);
    assert_eq!(target, "/home/a/Downloads/instagram_AbC123");
    assert_eq!(target_dir("C:\\Users\\a\\", url, true), "C:\\Users\\a\\instagram_AbC123");
    assert_eq!(args(&target, None, url), vec!["--no-colors", "-D", target.as_str(), "--", url]);
    assert_eq!(
        args(&target, Some("firefox"), url),
        vec!["--no-colors", "-D", target.as_str(), "--cookies-from-browser", "firefox", "--", url]
    );
}
