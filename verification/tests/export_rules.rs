use etta::export::{
    export_setting, has_windows_drive_path, is_exportable_setting, looks_like_path, scrub,
    scrub_text, REDACTED_PATH,
};

#[test]
fn path_detector_catches_common_shapes() {
    assert!(looks_like_path("/etc/passwd"));
    assert!(looks_like_path("~/Documents/x"));
    assert!(looks_like_path("C:\\Users\\me"));
    assert!(looks_like_path("/Users/alice/file"));
    assert!(!looks_like_path("x = 3y - 7"));
    assert!(!looks_like_path("the answer is 42"));
}

#[test]
fn path_detector_spares_latex_and_slash_leading_math() {
    assert!(!looks_like_path("Evaluate:\\[ \\int_0^1 x^2 \\, dx \\]"), "LaTeX after colon");
    assert!(!looks_like_path("/3 is the slope"), "'/'-leading math answer");
    assert!(!looks_like_path("/ 4 = 0.25"));
    assert!(!looks_like_path("f: \\mathbb{R} \\to \\mathbb{R}"));
    assert!(!looks_like_path("ratio 1/2 or 3/4"));
    assert!(
        !looks_like_path("Simplify:\\frac{1}{2}"),
        "word before ':\\' is not a drive letter"
    );

    assert!(looks_like_path("my file is at /Users/alice/notes.txt"));
    assert!(looks_like_path("see C:\\Users\\me\\quiz.txt"));
    assert!(looks_like_path("c:\\data\\notes.txt"));
    assert!(looks_like_path("stored under /home/bob/"));
    assert!(looks_like_path("/var/log/system.log"));
    assert!(looks_like_path("\\\\host\\Users\\me") || looks_like_path("\\Users\\me"));
    assert!(looks_like_path("../secrets.txt"));
    assert!(looks_like_path("~/Desktop/export.json"));
}

#[test]
fn path_detector_spares_single_letter_latex_but_keeps_real_drives() {
    assert!(!looks_like_path("Solve for x:\\[ x^2-4=0 \\]"), "display math after a variable");
    assert!(!looks_like_path("f:\\mathbb{R}\\to\\mathbb{R}"), "function signature");
    assert!(
        !looks_like_path("Let g:\\mathbb{R}\\to\\mathbb{R} be continuous"),
        "mid-sentence function signature"
    );

    assert!(looks_like_path("C:\\Users\\jacob"));
    assert!(looks_like_path("see D:\\data\\notes.txt"));
    assert!(looks_like_path("D:/data/notes.txt"), "forward-slash drive form");
    assert!(looks_like_path("file:///D:/data/notes.txt"), "file URL drive form");

    assert!(looks_like_path("/Volumes/USB/homework.txt"));

    assert!(!looks_like_path("c:\\data"), "separator-less drive is the accepted trade-off");
    assert!(!looks_like_path("Macintosh HD:Users:jacob:Documents:notes.txt"));
}

#[test]
fn drive_detector_needs_a_separator_after_the_segment() {
    assert!(has_windows_drive_path("E:\\stuff\\"));
    assert!(!has_windows_drive_path("E:\\stuff"));
    assert!(!has_windows_drive_path("xE:\\stuff\\"));
}

#[test]
fn scrub_redacts_paths_and_keeps_ordinary_answers() {
    assert_eq!(scrub(Some("/Users/alice/notes.txt".to_string())).as_deref(), Some(REDACTED_PATH));
    assert_eq!(scrub(Some("x = 3".to_string())).as_deref(), Some("x = 3"));
    assert_eq!(scrub(None), None);
    assert_eq!(scrub_text("~/Desktop/a.json".to_string()), REDACTED_PATH);
    assert_eq!(scrub_text("sign_error".to_string()), "sign_error");
}

#[test]
fn only_allow_listed_settings_are_exported() {
    assert!(is_exportable_setting("daily_goal_minutes"));
    assert!(!is_exportable_setting("api_key"));
    assert_eq!(
        export_setting("theme", "dark".to_string()),
        Some(("theme".to_string(), "dark".to_string()))
    );
    assert_eq!(export_setting("secret_token", "x".to_string()), None);
}

#[test]
fn export_scrub_spares_math_but_redacts_real_paths() {
    assert_eq!(scrub_text("Evaluate:\\[ x^2 \\]".to_string()), "Evaluate:\\[ x^2 \\]", "LaTeX prompt survives");
    assert_eq!(
        scrub(Some("/3 is the slope".to_string())).as_deref(),
        Some("/3 is the slope"),
        "'/'-leading math answer survives"
    );
    assert_eq!(
        scrub(Some("/Users/alice/answers.txt".to_string())).as_deref(),
        Some("[redacted path]"),
        "real path still scrubbed"
    );
}
