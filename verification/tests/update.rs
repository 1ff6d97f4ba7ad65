use omnidl::update::{
    asset_names, can_replace, check_download, check_file, keep_head, Rejected, is_native_executable, is_newer, new_path, old_path, original_exe, parse_checksum,
    parse_version, release_from, AssetNames, Refusal, ReleaseInfo,
};

const REPO: &str = "Hattinga/omnidl";
const WINDOWS: AssetNames = AssetNames { app: "omnidl.exe", cli: "omnidl-cli.exe" };

fn release_json(tag: &str, assets: &[&str]) -> ReleaseInfo {
    ReleaseInfo {
        draft: false,
        prerelease: false,
        tag: Some(tag.into()),
        page: Some(format!("https://github.com/{REPO}/releases/tag/{tag}")),
        assets: assets.iter().map(|n| (Some(n.to_string()), Some(format!("https://example.com/{n}")))).collect(),
    }
}

fn elf(data: u8, machine: u16) -> Vec<u8> {
    let mut h = vec![0x7f, b'E', b'L', b'F', 2, data, 1, 0];
    h.resize(18, 0);
    h.extend(if data == 2 { machine.to_be_bytes() } else { machine.to_le_bytes() });
    h.resize(64, 0);
    h
}

#[test]
fn versions_compare_numerically() {
    assert_eq!(parse_version("v0.10.2"), Some((0, 10, 2)));
    assert_eq!(parse_version("1.2"), Some((1, 2, 0)));
    assert_eq!(parse_version("2.0.0-beta.1"), Some((2, 0, 0)));
    assert_eq!(parse_version("latest"), None);
    assert!(is_newer("v0.10.0", "0.9.9"), "nicht als Text vergleichen");
    assert!(is_newer("0.2.1", "0.2.0"));
    assert!(!is_newer("0.2.0", "0.2.0"));
    assert!(!is_newer("0.1.9", "0.2.0"));
    assert!(!is_newer("kaputt", "0.2.0"));
}

#[test]
fn executables_are_recognised_per_platform() {
    let pe = b"MZ\x90\x00\x03\x00\x00\x00".to_vec();
    let macho_arm = [0xcf, 0xfa, 0xed, 0xfe, 0x0c, 0x00, 0x00, 0x01].to_vec();
    let fat = [0xca, 0xfe, 0xba, 0xbe, 0x00, 0x00, 0x00, 0x02].to_vec();
    let elf_x64 = elf(1, 62);
    let elf_arm = elf(1, 183);
    let html = b"<!DOCTYPE html><html>".to_vec();

    assert!(is_native_executable(&pe, "windows", "x86_64"));
    assert!(!is_native_executable(&elf_x64, "windows", "x86_64"));
    assert!(!is_native_executable(&html, "windows", "x86_64"));

    assert!(is_native_executable(&macho_arm, "macos", "aarch64"));
    assert!(is_native_executable(&fat, "macos", "x86_64"), "Universal-Binary");
    assert!(!is_native_executable(&pe, "macos", "aarch64"));
    assert!(!is_native_executable(&elf_arm, "macos", "aarch64"));
    assert!(!is_native_executable(&fat[..3], "macos", "aarch64"), "zu kurz");

    assert!(is_native_executable(&elf_x64, "linux", "x86_64"));
    assert!(is_native_executable(&elf_arm, "linux", "aarch64"));
    assert!(!is_native_executable(&elf_arm, "linux", "x86_64"), "falscher Prozessor");
    assert!(!is_native_executable(&elf_x64, "linux", "aarch64"));
    assert!(is_native_executable(&elf(2, 62), "linux", "x86_64"), "Big-Endian-Header");
    assert!(!is_native_executable(&elf_x64[..10], "linux", "x86_64"));
    assert!(!is_native_executable(&macho_arm, "linux", "aarch64"));
    assert!(!is_native_executable(&html, "linux", "x86_64"));
}

#[test]
fn checksum_files_in_common_shapes() {
    let h = "A".repeat(64);
    assert_eq!(parse_checksum(&format!("{h}  omnidl.exe\n")), Some("a".repeat(64)));
    assert_eq!(parse_checksum(&format!("{h} *omnidl.exe")), Some("a".repeat(64)));
    assert_eq!(parse_checksum(&format!("SHA256 (omnidl.exe) = {}", "0f".repeat(32))), Some("0f".repeat(32)));
    assert_eq!(parse_checksum("nichts"), None);
}

#[test]
fn side_files_keep_the_full_name() {
    assert_eq!(new_path("dir/omnidl.exe"), "dir/omnidl.exe.new", "wie in 0.2");
    assert_eq!(old_path("dir/omnidl.exe"), "dir/omnidl.exe.old");
    assert_eq!(new_path("dir/omnidl"), "dir/omnidl.new");
    assert_eq!(old_path("dir/omnidl-cli"), "dir/omnidl-cli.old");
}

#[test]
fn restart_uses_the_original_name() {
    assert_eq!(original_exe("/opt/omnidl/omnidl"), "/opt/omnidl/omnidl");
    assert_eq!(original_exe("/opt/omnidl/omnidl.old"), "/opt/omnidl/omnidl");
    assert_eq!(original_exe("/opt/omnidl/omnidl.old (deleted)"), "/opt/omnidl/omnidl");
    assert_eq!(original_exe(r"C:\x\omnidl.exe"), r"C:\x\omnidl.exe");
}

#[test]
fn release_needs_exe_and_checksum() {
    let rel = release_from(&release_json("v0.3.0", &["omnidl-0.3.0-x64.msi", "omnidl.exe", "omnidl.exe.sha256"]), WINDOWS)
        .unwrap();
    assert_eq!(rel.version, "0.3.0");
    assert_eq!(rel.app.url, "https://example.com/omnidl.exe");
    assert_eq!(rel.app.sha_url, "https://example.com/omnidl.exe.sha256");
    assert_eq!(rel.cli, None, "ältere Releases ohne omnidl-cli bleiben gültig");
    assert!(rel.page.ends_with("/v0.3.0"));

    assert!(release_from(&release_json("v0.3.0", &["omnidl.exe"]), WINDOWS).is_none(), "ohne Prüfsumme kein Update");
    let mut pre = release_json("v0.4.0", &["omnidl.exe", "omnidl.exe.sha256"]);
    pre.prerelease = true;
    assert!(release_from(&pre, WINDOWS).is_none());
}

#[test]
fn cli_comes_along_only_with_its_checksum() {
    let all = ["omnidl.exe", "omnidl.exe.sha256", "omnidl-cli.exe", "omnidl-cli.exe.sha256"];
    let rel = release_from(&release_json("v0.3.0", &all), WINDOWS).unwrap();
    let cli = rel.cli.expect("omnidl-cli");
    assert_eq!(cli.url, "https://example.com/omnidl-cli.exe");
    assert_eq!(cli.sha_url, "https://example.com/omnidl-cli.exe.sha256");

    let rel = release_from(&release_json("v0.3.0", &all[..3]), WINDOWS).unwrap();
    assert_eq!(rel.cli, None);
}

#[test]
fn every_platform_gets_its_own_asset() {
    let pick = |os, arch| asset_names(os, arch).map(|n| (n.app, n.cli));
    assert_eq!(pick("windows", "x86_64"), Some(("omnidl.exe", "omnidl-cli.exe")), "Namen von 0.2 bleiben");
    assert_eq!(pick("windows", "aarch64"), Some(("omnidl.exe", "omnidl-cli.exe")));
    assert_eq!(pick("macos", "aarch64"), Some(("omnidl-macos-universal", "omnidl-cli-macos-universal")));
    assert_eq!(pick("macos", "x86_64"), pick("macos", "aarch64"));
    assert_eq!(pick("linux", "x86_64"), Some(("omnidl-linux-x86_64", "omnidl-cli-linux-x86_64")));
    assert_eq!(pick("linux", "aarch64"), Some(("omnidl-linux-aarch64", "omnidl-cli-linux-aarch64")));
    assert_eq!(pick("linux", "riscv64"), None);
    assert_eq!(pick("freebsd", "x86_64"), None);

    // A full release offers each system its own file.
    let mut names = vec![];
    for (os, arch) in [("windows", "x86_64"), ("macos", "aarch64"), ("linux", "x86_64"), ("linux", "aarch64")] {
        let n = asset_names(os, arch).unwrap();
        for a in [n.app, n.cli] {
            names.push(a.to_string());
            names.push(format!("{a}.sha256"));
        }
    }
    let names: Vec<&str> = names.iter().map(String::as_str).collect();
    let json = release_json("v0.3.0", &names);
    let linux_arm = release_from(&json, asset_names("linux", "aarch64").unwrap()).unwrap();
    assert_eq!(linux_arm.app.url, "https://example.com/omnidl-linux-aarch64");
    assert_eq!(linux_arm.cli.unwrap().sha_url, "https://example.com/omnidl-cli-linux-aarch64.sha256");
    let mac = release_from(&json, asset_names("macos", "x86_64").unwrap()).unwrap();
    assert_eq!(mac.app.url, "https://example.com/omnidl-macos-universal");

    // A Windows-only release (0.2) offers nothing to Linux.
    let win_only = release_json("v0.3.0", &["omnidl.exe", "omnidl.exe.sha256"]);
    assert!(release_from(&win_only, asset_names("linux", "x86_64").unwrap()).is_none());
}

#[test]
fn replacing_needs_a_writable_folder_of_our_own() {
    assert!(can_replace(Some("omnidl"), Some("/opt/omnidl"), true).is_ok());
    assert_eq!(can_replace(Some("omnidl"), Some("/opt/omnidl"), false), Err(Refusal::ReadOnly("/opt/omnidl".into())));
    assert_eq!(can_replace(Some("omnidl-cli"), Some("/x"), true), Err(Refusal::Cli));
    assert_eq!(can_replace(Some("omnidl"), None, true), Err(Refusal::NoFolder));
    assert!(Refusal::Cli.message().starts_with("omnidl-cli"));
}

#[test]
fn downloads_are_checked_before_use() {
    let mut head = Vec::new();
    keep_head(&mut head, &[1; 40]);
    keep_head(&mut head, &[2; 40]);
    keep_head(&mut head, &[3; 10]);
    assert_eq!(head.len(), 64);
    assert_eq!(head[39..41], [1, 2]);
    let pe = b"MZ\x90\x00".to_vec();
    assert_eq!(check_download("ab", "ab", &pe, "windows", "x86_64"), Ok(()));
    assert_eq!(check_download("ab", "cd", &pe, "windows", "x86_64"), Err(Rejected::Corrupt));
    assert_eq!(check_download("ab", "ab", b"<html>", "windows", "x86_64"), Err(Rejected::NotProgram));
    assert!(Rejected::Corrupt.message().contains("Prüfsumme"));
}

#[test]
fn files_are_checked_by_their_own_digest() {
    let mut pe = b"MZ".to_vec();
    pe.extend_from_slice(&[0; 100]);
    let sum = "6bd7bf68fd40d67871abeb431d1be71ed2006cdf7e56c6ed3dff3be79cd2efcd";
    assert_eq!(check_file(sum, &pe, "windows", "x86_64"), Ok(()));
    assert_eq!(check_file(sum, &pe, "linux", "x86_64"), Err(Rejected::NotProgram));
    let mut changed = pe.clone();
    changed[50] = 1;
    assert_eq!(check_file(sum, &changed, "windows", "x86_64"), Err(Rejected::Corrupt));
    let html = "b7d082ee12e91b756ea22e8513b8594eebcf5d39fab813da3cb55794dc888ad7";
    assert_eq!(check_file(html, b"<html>", "windows", "x86_64"), Err(Rejected::NotProgram));
}
