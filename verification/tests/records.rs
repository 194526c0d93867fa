use std::io::Cursor;
use whisper_git::ai::{
    claude_args, find_claude_binary, response_from_message, AiProvider, AiRequest, Assistant,
    CliRun,
};
use whisper_git::avatar::{
    avatar_cache_dir, cache_file_name, hex_string, picture_from_answer, picture_from_file,
    picture_hash, picture_url, AvatarCache, DownloadResult, AVATAR_BYTES,
};
use whisper_git::config::{default_true, Config, SaveFailure, MAX_RECENT_REPOS};
use whisper_git::crash_log::{
    clean_exit_marker, crash_dir, crash_file_name, crash_report, date_of, format_timestamp,
    format_timestamp_display, has_crash_since_last_exit, prune_crash_logs, Breadcrumb,
    Breadcrumbs, CrashLog, LogFile, PanicFacts, PanicPlace, SystemInfo,
};

fn assistant() -> Assistant {
    Assistant {
        program: "writer".to_string(),
        name: "Writer".to_string(),
        guide: "https://example.com/writer".to_string(),
    }
}

#[test]
fn answers_are_split_into_subject_and_body() {
    let run = |json: &str| {
        AiProvider::ClaudeCli
            .generate_commit_message(&assistant(), CliRun::Output(json.to_string()))
    };
    let r = run(r#"{"result":" Fix it \n\n Because. \n"}"#).unwrap().unwrap();
    assert_eq!((r.subject.as_str(), r.body.as_str()), ("Fix it", "Because."));
    let r = run(r#"{"result":"One line"}"#).unwrap().unwrap();
    assert_eq!((r.subject.as_str(), r.body.as_str()), ("One line", ""));
    assert_eq!(
        run(r#"{"other":1}"#).unwrap().unwrap_err(),
        "Writer response missing 'result' field"
    );
    assert_eq!(
        run(r#"{"result":5}"#).unwrap().unwrap_err(),
        "Writer response missing 'result' field"
    );
    assert!(run("{").unwrap().unwrap_err().starts_with("Failed to parse Writer response: "));
}

#[test]
fn runs_that_fail_are_told() {
    let p = AiProvider::from_config("writer-cli");
    assert_eq!(p, AiProvider::from_config("anything"));
    assert_eq!(p.display_name(&assistant()), "Writer CLI");
    let failed = |run: CliRun| p.generate_commit_message(&assistant(), run).unwrap().unwrap_err();
    assert_eq!(
        failed(CliRun::NotFound),
        "Writer CLI not found. Install it from https://example.com/writer"
    );
    assert_eq!(failed(CliRun::NotRun("x".to_string())), "Failed to run writer: x");
    assert_eq!(failed(CliRun::Failed(" no \n".to_string())), "Writer CLI failed: no");
}

#[test]
fn subjects_are_cut_to_their_limit() {
    let r = response_from_message(&"x".repeat(100));
    assert_eq!(r.subject, "x".repeat(72));
    let long = format!("{} {}", "y".repeat(71), "z".repeat(10));
    assert_eq!(response_from_message(&long).subject, "y".repeat(71));
}

#[test]
fn the_command_line_holds_the_prompt() {
    let args = claude_args(&AiRequest {
        diff_text: "+x".to_string(),
        branch: "main".to_string(),
    });
    assert_eq!(args[0], "-p");
    assert!(args[1].starts_with("Generate a git commit message"));
    assert!(args[1].contains("Branch: main\n") && args[1].ends_with("Diff:\n+x"));
    assert_eq!(args[2..], ["--model", "haiku", "--output-format", "json"]);
    let home = Some("/home/u".to_string());
    assert_eq!(
        find_claude_binary(&assistant(), &home, true, true).as_deref(),
        Some("/home/u/.local/bin/writer")
    );
    assert_eq!(find_claude_binary(&assistant(), &home, false, true).as_deref(), Some("writer"));
    assert_eq!(find_claude_binary(&assistant(), &None, true, false), None);
}

#[test]
fn pictures_go_by_their_digest() {
    assert_eq!(picture_hash(""), "d41d8cd98f00b204e9800998ecf8427e");
    assert_eq!(picture_hash("a@b.c"), format!("{:x}", md5::compute("a@b.c")));
    assert_eq!(hex_string(&vec![0x0f, 0xa0]), "0fa0");
    assert_eq!(cache_file_name("ab"), "ab.png");
    assert_eq!(picture_url("ab"), "https://www.gravatar.com/avatar/ab?s=64&d=404");
    assert_eq!(
        avatar_cache_dir(None, None),
        vec!["/tmp", ".cache", "whisper-git", "avatars"]
    );
    assert_eq!(
        avatar_cache_dir(Some("/c".to_string()), Some("/h".to_string())),
        vec!["/c", "whisper-git", "avatars"]
    );
}

fn png(side: u32) -> Vec<u8> {
    let img = image::RgbaImage::from_pixel(side, side, image::Rgba([10, 20, 30, 255]));
    let mut out = Cursor::new(Vec::new());
    image::DynamicImage::ImageRgba8(img).write_to(&mut out, image::ImageFormat::Png).unwrap();
    out.into_inner()
}

fn jpeg(side: u32) -> Vec<u8> {
    let img = image::RgbImage::from_pixel(side, side, image::Rgb([10, 20, 30]));
    let mut out = Cursor::new(Vec::new());
    image::DynamicImage::ImageRgb8(img).write_to(&mut out, image::ImageFormat::Jpeg).unwrap();
    out.into_inner()
}

#[test]
fn a_kept_picture_is_read_as_a_png() {
    assert_eq!(picture_from_answer(200, &jpeg(8)).unwrap().len(), AVATAR_BYTES);
    assert!(picture_from_file(&jpeg(8)).is_none());
    assert_eq!(picture_from_file(&png(8)).unwrap(), picture_from_answer(200, &png(8)).unwrap());
}

#[test]
fn pictures_are_brought_to_their_size() {
    let p = picture_from_answer(200, &png(3)).unwrap();
    assert_eq!(p.len(), AVATAR_BYTES);
    assert_eq!(&p[..4], &[10, 20, 30, 255]);
    assert!(picture_from_answer(404, &png(3)).is_none());
    assert!(picture_from_answer(200, &vec![1, 2, 3]).is_none());
    assert_eq!(picture_from_file(&png(3)).unwrap().len(), AVATAR_BYTES);
    assert!(picture_from_file(&vec![1, 2, 3]).is_none());
}

#[test]
fn a_picture_is_asked_for_once() {
    let mut c = AvatarCache::new();
    assert_eq!(c.request("  Ada@Example.COM ").as_deref(), Some("ada@example.com"));
    assert_eq!(c.request("ada@example.com"), None);
    assert_eq!(c.request("   "), None);
    assert!(c.get("ADA@example.com").is_none());
    let done = |pixels: Option<Vec<u8>>| DownloadResult {
        email_key: "ada@example.com".to_string(),
        pixels,
    };
    assert!(!c.drain_completions(vec![]));
    assert!(!c.drain_completions(vec![done(None)]));
    let came = vec![done(None), done(Some(vec![7; AVATAR_BYTES]))];
    assert!(c.drain_completions(came));
    assert_eq!(c.get("ADA@example.com").unwrap()[0], 7);
    c.complete(done(Some(vec![7; 3])));
    assert!(c.get("ada@example.com").is_none());
    assert!(!c.prefetch_needed("ada@example.com"));
    assert!(c.prefetch_needed("eve@example.com"));
    assert_eq!(c.prefetch_sync(" Eve@Example.com"), Some("eve@example.com".to_string()));
    assert_eq!(c.prefetch_sync("Ada@example.com"), None);
    assert_eq!(c.prefetch_sync(" "), None);
}

#[test]
fn settings_have_their_defaults() {
    let c = Config::initial(&assistant());
    assert!(c.avatars_enabled && c.shortcut_bar_visible && c.ratchet_scroll && default_true());
    assert!(!c.fast_scroll && !c.diff_split);
    assert_eq!(c.ai_provider, "writer-cli");
}

#[test]
fn hosts_are_kept_sorted_without_repeats() {
    let mut c = Config::initial(&assistant());
    assert!(c.register_gitlab_host("gitlab.com"));
    assert!(c.register_gitlab_host("a.example"));
    assert!(!c.register_gitlab_host("gitlab.com"));
    assert_eq!(c.gitlab_hosts, vec!["a.example", "gitlab.com"]);
}

#[test]
fn recent_repositories_are_newest_first_and_few() {
    let mut c = Config::initial(&assistant());
    for i in 0..3 {
        c.add_recent_repo(&format!("/r{i}"));
    }
    c.add_recent_repo("/r0");
    assert_eq!(c.recent_repos, vec!["/r0", "/r2", "/r1"]);
    let many: Vec<String> = (0..20).map(|i| format!("/x{i}")).collect();
    assert!(c.refresh_recent_repos(many));
    assert_eq!(c.recent_repos.len(), MAX_RECENT_REPOS);
    let same: Vec<String> = c.recent_repos.clone();
    assert!(!c.refresh_recent_repos(same));
}

#[test]
fn failures_to_save_are_told() {
    let e = |f: SaveFailure| f.message();
    assert_eq!(e(SaveFailure::NoDirectory), "Could not determine config directory");
    assert_eq!(e(SaveFailure::NoPath), "Could not determine config path");
    assert_eq!(e(SaveFailure::NotCreated("x".into())), "Failed to create config dir: x");
    assert_eq!(e(SaveFailure::NotSerialized("x".into())), "Failed to serialize config: x");
    assert_eq!(e(SaveFailure::NotWritten("x".into())), "Failed to save config: x");
}

#[test]
fn times_are_written_as_dates() {
    assert_eq!(format_timestamp(0), "1970-01-01-000000");
    assert_eq!(format_timestamp(951_827_696), "2000-02-29-123456");
    assert_eq!(format_timestamp_display(951_827_696), "2000-02-29 12:34:56");
    assert_eq!(format_timestamp(1_700_000_000), "2023-11-14-221320");
    let d = date_of(19_358);
    assert_eq!((d.year, d.month, d.day), (2023, 1, 1));
}

#[test]
fn later_times_have_later_names() {
    let times = [
        0,
        59,
        60,
        3_599,
        3_600,
        86_399,
        86_400,
        951_782_399,
        951_782_400,
        1_700_000_000,
        4_102_444_799,
        4_102_444_800,
        253_402_300_799,
    ];
    for w in times.windows(2) {
        let (a, b) = (format_timestamp(w[0]), format_timestamp(w[1]));
        assert_eq!(a.len(), 17);
        assert_eq!(b.len(), 17);
        assert!(a < b);
        assert!(crash_file_name(&a) < crash_file_name(&b));
    }
    assert_eq!(format_timestamp(253_402_300_799), "9999-12-31-235959");
    assert_eq!(format_timestamp(253_402_300_800), "10000-01-01-000000");

    let file = |secs: u64| LogFile {
        path: format!("/d/{}", crash_file_name(&format_timestamp(secs))),
        is_log: true,
        mtime: None,
    };
    let files = vec![file(4_102_444_800), file(59), file(1_700_000_000)];
    assert_eq!(
        prune_crash_logs(&files, 1),
        vec!["/d/crash-1970-01-01-000059.log", "/d/crash-2023-11-14-221320.log"]
    );
}

#[test]
fn starting_again_keeps_what_was_recorded() {
    let mut log = CrashLog::new();
    log.breadcrumb(5, None, "too early".to_string());
    assert_eq!(log.drain_breadcrumbs(), "");
    log.init(1_000);
    log.breadcrumb(3_250, Some("main".to_string()), "one".to_string());
    log.breadcrumb(900, None, "two".to_string());
    let before = log.drain_breadcrumbs();
    assert_eq!(before, "[   2.250s] [main] one\n[   0.000s] [unnamed] two\n");
    log.init(9_000);
    assert_eq!(log.drain_breadcrumbs(), before);
    assert_eq!(log.start, Some(1_000));
    log.breadcrumb(9_500, None, "three".to_string());
    assert!(log.drain_breadcrumbs().ends_with("[   8.500s] [unnamed] three\n"));
}

#[test]
fn the_last_device_name_is_reported() {
    let mut log = CrashLog::new();
    log.set_vulkan_device("early");
    assert_eq!(log.format_system_info(), "");
    log.init_system_info("linux".to_string(), "0.1.0".to_string());
    assert_eq!(log.format_system_info(), "Version: 0.1.0\nOS: linux\n");
    log.set_vulkan_device("A");
    log.set_vulkan_device("B");
    assert_eq!(log.format_system_info(), "Version: 0.1.0\nOS: linux\nGPU: B\n");
    log.init_system_info("other".to_string(), "9".to_string());
    assert_eq!(log.format_system_info(), "Version: 0.1.0\nOS: linux\nGPU: B\n");
    log.set_vulkan_device("");
    assert_eq!(log.format_system_info(), "Version: 0.1.0\nOS: linux\n");
}

#[test]
fn the_newest_breadcrumbs_are_kept() {
    let mut b = Breadcrumbs::init();
    assert_eq!(b.drain_breadcrumbs(), "");
    for i in 0..60 {
        b.breadcrumb(Breadcrumb {
            elapsed: i * 1000 + 5,
            thread: "main".to_string(),
            message: format!("m{i}"),
        });
    }
    let text = b.drain_breadcrumbs();
    assert_eq!(text.lines().count(), 50);
    let want = format!("[{:8.3}s] [{}] {}", 10.005, "main", "m10");
    assert_eq!(text.lines().next().unwrap(), want);
}

#[test]
fn reports_hold_what_is_known() {
    let mut info = SystemInfo::new("linux".to_string(), "0.1.0".to_string());
    assert_eq!(info.format_system_info(), "Version: 0.1.0\nOS: linux\n");
    info.set_vulkan_device("GPU X");
    let r = crash_report(&PanicFacts {
        timestamp: "T".to_string(),
        system: info.format_system_info(),
        message: None,
        place: Some(PanicPlace { file: "f.rs".to_string(), line: 3, column: 4 }),
        breadcrumbs: String::new(),
        backtrace: "bt".to_string(),
    });
    assert_eq!(
        r,
        "=== Whisper-Git Crash Report ===\nTimestamp: T\nVersion: 0.1.0\nOS: linux\nGPU: GPU X\n\n--- Panic ---\nMessage: unknown panic payload\nLocation: f.rs:3:4\n\n--- Backtrace ---\nbt"
    );
    assert_eq!(crash_file_name("T"), "crash-T.log");
}

#[test]
fn logs_are_found_and_pruned() {
    let log = |path: &str, is_log: bool, mtime: Option<u128>| LogFile {
        path: path.to_string(),
        is_log,
        mtime,
    };
    let files = vec![
        log("b.log", true, Some(20)),
        log("a.log", true, Some(30)),
        log("c.txt", false, Some(99)),
        log("d.log", true, None),
    ];
    assert_eq!(has_crash_since_last_exit(&files, 10).as_deref(), Some("a.log"));
    assert_eq!(has_crash_since_last_exit(&files, 30), None);
    assert_eq!(prune_crash_logs(&files, 1), vec!["a.log", "b.log"]);
    assert!(prune_crash_logs(&files, 3).is_empty());
    assert_eq!(
        crash_dir(Some("/c".to_string()), None),
        vec!["/c", "whisper-git", "crashes"]
    );
    assert_eq!(
        clean_exit_marker(None, Some("/h".to_string())),
        vec!["/h", ".config", "whisper-git", ".last_clean_exit"]
    );
}
