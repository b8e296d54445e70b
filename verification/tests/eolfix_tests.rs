use eolfix::convert::{
    convert_content, is_large_file, normalize_line_endings, ConvertResult, LARGE_FILE_THRESHOLD,
};
use eolfix::report::{status_of, FileStatus, Tally};
use eolfix::ignore_filter::{is_git_dir, should_skip_dir, should_skip_file, IgnoreFilter};
use eolfix::inspector::{is_text_sample, SAMPLE_SIZE};
use eolfix::patterns::{matches_any_pattern, pattern_matches};
use eolfix::rules::{
    pick_target, resolve_config_path, ConfigError, ConfigLookup, ForceRulesSection,
    IgnoreSection, LineEnding, RuleConfig, Rules,
};
use eolfix::text::{chars_of, trim_start_char};
use eolfix::walk::{next_file_step, FileStep, SkipReason};

fn strings(items: &[&str]) -> Vec<String> {
    items.iter().map(|s| s.to_string()).collect()
}

fn section(patterns: &[&str], extensions: &[&str], ignore_default: &[&str]) -> ForceRulesSection {
    ForceRulesSection {
        patterns: strings(patterns),
        extensions: strings(extensions),
        ignore_default: strings(ignore_default),
    }
}

// ---- normalize_line_endings -------------------------------------------------

#[test]
fn normalize_crlf_to_lf() {
    assert_eq!(normalize_line_endings(b"a\r\nb\r\n", LineEnding::LF), b"a\nb\n".to_vec());
}

#[test]
fn normalize_cr_to_lf() {
    assert_eq!(normalize_line_endings(b"a\rb\r", LineEnding::LF), b"a\nb\n".to_vec());
}

#[test]
fn normalize_mixed_to_lf() {
    assert_eq!(normalize_line_endings(b"a\r\nb\rc\nd", LineEnding::LF), b"a\nb\nc\nd".to_vec());
}

#[test]
fn normalize_lf_to_crlf() {
    assert_eq!(normalize_line_endings(b"a\nb\n", LineEnding::CRLF), b"a\r\nb\r\n".to_vec());
}

#[test]
fn normalize_mixed_to_crlf() {
    assert_eq!(
        normalize_line_endings(b"a\r\nb\rc\nd", LineEnding::CRLF),
        b"a\r\nb\r\nc\r\nd".to_vec()
    );
}

#[test]
fn normalize_mixed_to_cr() {
    assert_eq!(normalize_line_endings(b"a\r\nb\rc\nd", LineEnding::CR), b"a\rb\rc\rd".to_vec());
}

#[test]
fn normalize_cr_before_crlf_counts_twice() {
    assert_eq!(normalize_line_endings(b"\r\r\n", LineEnding::LF), b"\n\n".to_vec());
    assert_eq!(normalize_line_endings(b"\r\r\n", LineEnding::CRLF), b"\r\n\r\n".to_vec());
}

#[test]
fn normalize_lf_cr_is_two_breaks() {
    assert_eq!(normalize_line_endings(b"\n\r", LineEnding::CRLF), b"\r\n\r\n".to_vec());
}

#[test]
fn normalize_empty_stays_empty() {
    for t in [LineEnding::LF, LineEnding::CRLF, LineEnding::CR] {
        assert_eq!(normalize_line_endings(b"", t), Vec::<u8>::new());
    }
}

#[test]
fn normalize_single_line_without_newline_is_unchanged() {
    for t in [LineEnding::LF, LineEnding::CRLF, LineEnding::CR] {
        assert_eq!(normalize_line_endings(b"just one line", t), b"just one line".to_vec());
    }
}

#[test]
fn normalize_keeps_utf8_bom() {
    let input = b"\xEF\xBB\xBFhello\r\nworld\r\n";
    assert_eq!(
        normalize_line_endings(input, LineEnding::LF),
        b"\xEF\xBB\xBFhello\nworld\n".to_vec()
    );
}

#[test]
fn normalize_already_crlf_is_unchanged() {
    let input = b"x\r\ny\r\n";
    assert_eq!(normalize_line_endings(input, LineEnding::CRLF), input.to_vec());
}

#[test]
fn law_idempotent_on_sample() {
    let input = b"a\r\r\nb\n\rc\r";
    for t in [LineEnding::LF, LineEnding::CRLF, LineEnding::CR] {
        let once = normalize_line_endings(input, t);
        let twice = normalize_line_endings(&once, t);
        assert_eq!(once, twice);
    }
}

#[test]
fn law_retarget_on_sample() {
    let input = b"one\r\ntwo\rthree\nfour\r\r\n";
    let all = [LineEnding::LF, LineEnding::CRLF, LineEnding::CR];
    for a in all {
        for b in all {
            let via = normalize_line_endings(&normalize_line_endings(input, a), b);
            assert_eq!(via, normalize_line_endings(input, b));
        }
    }
}

#[test]
fn law_in_style_on_sample() {
    let input = b"p\rq\r\nr\ns\n\r";
    assert!(!normalize_line_endings(input, LineEnding::LF).contains(&b'\r'));
    assert!(!normalize_line_endings(input, LineEnding::CR).contains(&b'\n'));
    let crlf = normalize_line_endings(input, LineEnding::CRLF);
    for (i, b) in crlf.iter().enumerate() {
        if *b == b'\r' {
            assert_eq!(crlf[i + 1], b'\n');
        }
        if *b == b'\n' {
            assert_eq!(crlf[i - 1], b'\r');
        }
    }
}

#[test]
fn law_text_between_breaks_on_sample() {
    let input = b"\xEF\xBB\xBFab\r\ncd\ref\ngh";
    let strip = |v: &[u8]| -> Vec<u8> {
        v.iter().copied().filter(|b| *b != b'\r' && *b != b'\n').collect()
    };
    for t in [LineEnding::LF, LineEnding::CRLF, LineEnding::CR] {
        assert_eq!(strip(&normalize_line_endings(input, t)), strip(input));
    }
}

#[test]
fn law_line_count_on_sample() {
    let input = b"a\r\nb\rc\nd\r\r\n";
    // a\r\n, \r, \n, \r, \r\n: five line endings
    assert_eq!(normalize_line_endings(input, LineEnding::LF).iter().filter(|b| **b == b'\n').count(), 5);
    assert_eq!(normalize_line_endings(input, LineEnding::CR).iter().filter(|b| **b == b'\r').count(), 5);
}

// ---- convert_content ---------------------------------------------------------

#[test]
fn convert_empty_is_skipped() {
    let c = convert_content(b"", LineEnding::LF, false);
    assert!(c.result.skipped);
    assert!(!c.result.changed);
    assert!(c.result.error.is_none());
    assert!(c.output.is_none());
}

#[test]
fn convert_already_correct_is_ok() {
    let c = convert_content(b"a\nb\n", LineEnding::LF, false);
    assert!(!c.result.skipped);
    assert!(!c.result.changed);
    assert!(c.output.is_none());
}

#[test]
fn convert_changes_and_hands_back_bytes() {
    let c = convert_content(b"a\r\nb\r\n", LineEnding::LF, false);
    assert!(c.result.changed);
    assert!(!c.result.skipped);
    assert_eq!(c.output, Some(b"a\nb\n".to_vec()));
}

#[test]
fn convert_dry_run_writes_nothing() {
    let c = convert_content(b"a\r\nb\r\n", LineEnding::LF, true);
    assert!(c.result.changed);
    assert!(c.output.is_none());
}

#[test]
fn convert_lf_file_forced_to_crlf() {
    let c = convert_content(b"echo hi\n", LineEnding::CRLF, false);
    assert!(c.result.changed);
    assert_eq!(c.output, Some(b"echo hi\r\n".to_vec()));
}

#[test]
fn convert_crlf_file_forced_to_crlf_is_noop() {
    let c = convert_content(b"echo hi\r\n", LineEnding::CRLF, false);
    assert!(!c.result.changed);
    assert!(c.output.is_none());
}

#[test]
fn convert_one_line_without_newline_is_left_as_is() {
    let c = convert_content(b"no newline here", LineEnding::CRLF, false);
    assert!(!c.result.changed);
    assert!(!c.result.skipped);
    assert!(c.output.is_none());
}

#[test]
fn convert_mixed_without_trailing_newline_is_normalized() {
    let c = convert_content(b"a\r\nb\rc", LineEnding::LF, false);
    assert!(c.result.changed);
    assert_eq!(c.output, Some(b"a\nb\nc".to_vec()));
}

#[test]
fn large_file_threshold() {
    assert_eq!(LARGE_FILE_THRESHOLD, 100 * 1024 * 1024);
    assert!(!is_large_file(100 * 1024 * 1024));
    assert!(is_large_file(100 * 1024 * 1024 + 1));
    assert!(!is_large_file(0));
}

// ---- is_text_sample ----------------------------------------------------------

#[test]
fn text_sample_plain_text() {
    assert!(is_text_sample(b"hello world\n\tindented\r\n\x1b[0m"));
}

#[test]
fn text_sample_empty_is_not_text() {
    assert!(!is_text_sample(b""));
}

#[test]
fn text_sample_with_nul_is_binary() {
    assert!(!is_text_sample(b"abc\x00def"));
}

#[test]
fn text_sample_ratio_boundary() {
    // 1 control byte in 10: exactly a tenth, still text
    assert!(is_text_sample(b"\x01bcdefghij"));
    // 2 control bytes in 10: more than a tenth, binary
    assert!(!is_text_sample(b"\x01\x02cdefghij"));
    // 1 in 9: more than a tenth
    assert!(!is_text_sample(b"\x01bcdefghi"));
}

#[test]
fn text_sample_whitelisted_controls_do_not_count() {
    assert!(is_text_sample(b"\t\t\t\n\n\r\r\x1b\x1ba"));
}

#[test]
fn sample_size_is_8_kib() {
    assert_eq!(SAMPLE_SIZE, 8192);
}

// ---- patterns ----------------------------------------------------------------

#[test]
fn glob_pattern_matching() {
    assert!(pattern_matches("*.bat", "run.bat"));
    assert!(!pattern_matches("*.bat", "run.sh"));
    assert!(pattern_matches("Makefile", "Makefile"));
    assert!(!pattern_matches("[abc", "a"));
}

#[test]
fn any_pattern_matching() {
    let ps = strings(&["*.sh", "*.bat"]);
    assert!(matches_any_pattern("x.bat", &ps));
    assert!(!matches_any_pattern("x.txt", &ps));
    assert!(!matches_any_pattern("x.txt", &Vec::new()));
}

// ---- rules -------------------------------------------------------------------

#[test]
fn default_rules_have_hardcoded_patterns() {
    let rules = Rules::load(None);
    assert_eq!(
        rules.force_lf_patterns,
        strings(&["*.sh", "*.bash", "*.zsh", "*.fish", "*.ksh", "*.mk", "Makefile"])
    );
    assert_eq!(rules.force_crlf_patterns, strings(&["*.bat", "*.cmd"]));
    assert!(rules.force_cr_patterns.is_empty());
    assert!(rules.ignore_patterns.is_empty());
    assert!(rules.ignore_paths.is_empty());
    assert_eq!(rules.default_target, LineEnding::LF);
}

#[test]
fn default_targets() {
    let rules = Rules::load(None);
    assert_eq!(rules.determine_target("run.bat"), LineEnding::CRLF);
    assert_eq!(rules.determine_target("run.cmd"), LineEnding::CRLF);
    assert_eq!(rules.determine_target("build.sh"), LineEnding::LF);
    assert_eq!(rules.determine_target("Makefile"), LineEnding::LF);
    assert_eq!(rules.determine_target("notes.txt"), LineEnding::LF);
}

#[test]
fn config_patterns_are_appended() {
    let config = RuleConfig {
        default: None,
        force_lf: section(&[], &[], &[]),
        force_crlf: section(&["*.sln"], &[".vcxproj", "ps1"], &[]),
        force_cr: section(&["*.mac"], &["old"], &[]),
        ignore: IgnoreSection { patterns: strings(&["*.exe"]), paths: strings(&["target/"]) },
    };
    let rules = Rules::load(Some(&config));
    assert_eq!(rules.force_crlf_patterns, strings(&["*.bat", "*.cmd", "*.sln", "*.vcxproj", "*.ps1"]));
    assert_eq!(rules.force_cr_patterns, strings(&["*.mac", "*.old"]));
    assert_eq!(rules.ignore_patterns, strings(&["*.exe"]));
    assert_eq!(rules.ignore_paths, strings(&["target/"]));
    assert_eq!(rules.determine_target("a.sln"), LineEnding::CRLF);
    assert_eq!(rules.determine_target("a.mac"), LineEnding::CR);
    assert!(rules.is_ignored("tool.exe"));
    assert!(!rules.is_ignored("tool.rs"));
}

#[test]
fn ignore_default_drops_builtin_extensions() {
    let config = RuleConfig {
        default: None,
        force_lf: section(&[], &[], &["mk"]),
        force_crlf: section(&["*.sln"], &[], &["bat", ".cmd"]),
        force_cr: ForceRulesSection::default(),
        ignore: IgnoreSection::default(),
    };
    let rules = Rules::load(Some(&config));
    assert_eq!(rules.force_crlf_patterns, strings(&["*.sln"]));
    assert_eq!(
        rules.force_lf_patterns,
        strings(&["*.sh", "*.bash", "*.zsh", "*.fish", "*.ksh", "Makefile"])
    );
    assert_eq!(rules.determine_target("run.bat"), LineEnding::LF);
}

#[test]
fn lf_rules_take_priority_over_crlf() {
    let config = RuleConfig {
        default: None,
        force_lf: section(&["*.bat"], &[], &[]),
        force_crlf: ForceRulesSection::default(),
        force_cr: section(&["*.bat"], &[], &[]),
        ignore: IgnoreSection::default(),
    };
    let rules = Rules::load(Some(&config));
    assert_eq!(rules.determine_target("run.bat"), LineEnding::LF);
}

#[test]
fn crlf_rules_take_priority_over_cr() {
    let config = RuleConfig {
        default: None,
        force_lf: ForceRulesSection::default(),
        force_crlf: ForceRulesSection::default(),
        force_cr: section(&["*.bat"], &[], &[]),
        ignore: IgnoreSection::default(),
    };
    let rules = Rules::load(Some(&config));
    assert_eq!(rules.determine_target("run.bat"), LineEnding::CRLF);
    assert_eq!(rules.determine_target("old.mac"), LineEnding::LF);
}

#[test]
fn configured_default_target() {
    let config = RuleConfig {
        default: Some(LineEnding::CRLF),
        ..RuleConfig::default()
    };
    let rules = Rules::load(Some(&config));
    assert_eq!(rules.default_target, LineEnding::CRLF);
    assert_eq!(rules.determine_target("readme.txt"), LineEnding::CRLF);
    assert_eq!(rules.determine_target("build.sh"), LineEnding::LF);
}

#[test]
fn invalid_patterns_never_match() {
    let config = RuleConfig {
        force_crlf: section(&["[oops"], &[], &[]),
        ..RuleConfig::default()
    };
    let rules = Rules::load(Some(&config));
    assert_eq!(rules.determine_target("[oops"), LineEnding::LF);
}

#[test]
fn pick_target_priority() {
    assert_eq!(pick_target(true, true, true, LineEnding::CR), LineEnding::LF);
    assert_eq!(pick_target(false, true, true, LineEnding::LF), LineEnding::CRLF);
    assert_eq!(pick_target(false, false, true, LineEnding::LF), LineEnding::CR);
    assert_eq!(pick_target(false, false, false, LineEnding::CRLF), LineEnding::CRLF);
}

#[test]
fn check_config_accepts_valid() {
    let config = RuleConfig {
        force_crlf: section(&["*.sln"], &[], &[]),
        ignore: IgnoreSection { patterns: strings(&["*.exe"]), paths: strings(&["target/"]) },
        ..RuleConfig::default()
    };
    assert!(Rules::check_config(&config).is_ok());
    assert!(Rules::check_config(&RuleConfig::default()).is_ok());
}

#[test]
fn check_config_reports_first_invalid_pattern() {
    let config = RuleConfig {
        force_crlf: section(&["*.sln", "a/**b"], &[], &[]),
        force_cr: section(&["[x"], &[], &[]),
        ignore: IgnoreSection { patterns: vec![], paths: strings(&[""]) },
        ..RuleConfig::default()
    };
    match Rules::check_config(&config) {
        Err(ConfigError::InvalidPattern { pattern, message }) => {
            assert_eq!(pattern, "a/**b");
            assert!(message.contains("position 4"));
        }
        other => panic!("unexpected: {:?}", other),
    }
}

#[test]
fn check_config_rejects_empty_ignore_path() {
    let config = RuleConfig {
        ignore: IgnoreSection { patterns: strings(&["*.o"]), paths: strings(&["dist/", ""]) },
        ..RuleConfig::default()
    };
    assert!(matches!(Rules::check_config(&config), Err(ConfigError::EmptyIgnorePath)));
}

// ---- config lookup -------------------------------------------------------------

#[test]
fn lookup_without_user_path_searches_root() {
    match resolve_config_path("/proj", None, &[]) {
        ConfigLookup::CheckFile(p) => assert_eq!(p, "/proj/eolfix.toml"),
        other => panic!("unexpected: {:?}", other),
    }
    match resolve_config_path("/proj", None, &[true]) {
        ConfigLookup::Resolved(Some(p)) => assert_eq!(p, "/proj/eolfix.toml"),
        other => panic!("unexpected: {:?}", other),
    }
    match resolve_config_path("/proj", None, &[false]) {
        ConfigLookup::CheckFile(p) => assert_eq!(p, "/proj/.eolfix.toml"),
        other => panic!("unexpected: {:?}", other),
    }
    match resolve_config_path("/proj", None, &[false, true]) {
        ConfigLookup::Resolved(Some(p)) => assert_eq!(p, "/proj/.eolfix.toml"),
        other => panic!("unexpected: {:?}", other),
    }
    assert!(matches!(resolve_config_path("/proj", None, &[false, false]), ConfigLookup::Resolved(None)));
}

#[test]
fn lookup_with_user_directory() {
    match resolve_config_path("/proj", Some("/etc/cfg"), &[]) {
        ConfigLookup::CheckDir(p) => assert_eq!(p, "/etc/cfg"),
        other => panic!("unexpected: {:?}", other),
    }
    match resolve_config_path("/proj", Some("/etc/cfg"), &[true]) {
        ConfigLookup::CheckFile(p) => assert_eq!(p, "/etc/cfg/eolfix.toml"),
        other => panic!("unexpected: {:?}", other),
    }
    match resolve_config_path("/proj", Some("/etc/cfg"), &[true, false, true]) {
        ConfigLookup::Resolved(Some(p)) => assert_eq!(p, "/etc/cfg/.eolfix.toml"),
        other => panic!("unexpected: {:?}", other),
    }
    assert!(matches!(
        resolve_config_path("/proj", Some("/etc/cfg"), &[true, false, false]),
        ConfigLookup::Resolved(None)
    ));
}

#[test]
fn lookup_with_user_file() {
    match resolve_config_path("/proj", Some("/etc/my.toml"), &[false]) {
        ConfigLookup::Resolved(Some(p)) => assert_eq!(p, "/etc/my.toml"),
        other => panic!("unexpected: {:?}", other),
    }
}

// ---- ignore filter ----------------------------------------------------------------

fn files(files: &[&[&str]]) -> Vec<Vec<String>> {
    files.iter().map(|f| strings(f)).collect()
}

#[test]
fn ignore_paths_match_by_prefix() {
    let f = IgnoreFilter::new(false, "/p", vec![], strings(&["node_modules/", "build\\out"]));
    assert!(f.is_ignored("/p", "/p/node_modules/x.js", false));
    assert!(f.is_ignored("/p", "/p/node_modules", true));
    assert!(f.is_ignored("/p", "/p/build/out/a.txt", false));
    assert!(!f.is_ignored("/p", "/p/src/main.rs", false));
    assert!(!f.is_ignored("/q", "/p/node_modules/x.js", false));
}

#[test]
fn ignore_relative_decision() {
    let f = IgnoreFilter::new(true, "/p", vec![], strings(&["target/"]));
    assert!(f.is_ignored_relative("target/debug/x", false));
    assert!(!f.is_ignored_relative("src/lib.rs", false));
    assert!(f.is_ignored_relative("src/lib.rs", true));
}

#[test]
fn gitignore_rules_apply_when_enabled() {
    let f = IgnoreFilter::new(true, "/p", files(&[&["*.log", "# comment", "!keep.log"]]), vec![]);
    assert!(f.is_ignored("/p", "/p/debug.log", false));
    assert!(f.is_ignored("/p", "/p/sub/trace.log", false));
    assert!(!f.is_ignored("/p", "/p/keep.log", false));
    assert!(!f.is_ignored("/p", "/p/main.rs", false));
}

#[test]
fn gitignore_directory_rules_need_is_dir() {
    let f = IgnoreFilter::new(true, "/p", files(&[&["out/"]]), vec![]);
    assert!(f.is_ignored("/p", "/p/out", true));
    assert!(!f.is_ignored("/p", "/p/out", false));
}

#[test]
fn gitignore_files_are_read_in_order_and_bom_is_dropped() {
    let f = IgnoreFilter::new(
        true,
        "/p",
        files(&[&["\u{feff}*.tmp", "*.bak"], &["\u{feff}*.swp", "!x.bak"]]),
        vec![],
    );
    assert!(f.is_ignored("/p", "/p/a.tmp", false));
    assert!(f.is_ignored("/p", "/p/a.bak", false));
    // the later file's whitelist wins over the earlier file's rule
    assert!(!f.is_ignored("/p", "/p/x.bak", false));
    // each file's first line loses its byte-order mark
    assert!(f.is_ignored("/p", "/p/a.swp", false));
}

#[test]
fn gitignore_rules_dropped_when_disabled() {
    let f = IgnoreFilter::new(false, "/p", files(&[&["*.log"]]), vec![]);
    assert!(!f.is_ignored("/p", "/p/debug.log", false));
}

#[test]
fn git_dir_detection() {
    assert!(is_git_dir("/p/.git"));
    assert!(is_git_dir(".git"));
    assert!(!is_git_dir("/p/.github"));
    assert!(!is_git_dir("/p/src"));
    assert!(should_skip_dir("/p/sub/.git"));
    assert!(!should_skip_dir("/p/sub"));
}

#[test]
fn skip_file_decisions() {
    let f = IgnoreFilter::new(true, "/p", files(&[&["*.log"]]), strings(&["vendor/"]));
    assert!(should_skip_file("/p", "/p/a.rs", &f, true, false));
    assert!(should_skip_file("/p", "/p/a.log", &f, false, false));
    assert!(should_skip_file("/p", "/p/vendor/a.rs", &f, false, false));
    assert!(!should_skip_file("/p", "/p/a.rs", &f, false, false));
}

// ---- text helpers ----------------------------------------------------------------

#[test]
fn text_helpers() {
    assert_eq!(trim_start_char("..ext", '.'), "ext");
    assert_eq!(trim_start_char("ext", '.'), "ext");
    assert_eq!(chars_of("héllo"), vec!['h', 'é', 'l', 'l', 'o']);
}

// ---- report ----------------------------------------------------------------------


#[test]
fn status_precedence() {
    let r = |changed, skipped, error: Option<&str>| ConvertResult {
        changed,
        skipped,
        error: error.map(|e| e.to_string()),
    };
    assert_eq!(status_of(&r(true, true, Some("boom"))), FileStatus::Error);
    assert_eq!(status_of(&r(true, true, None)), FileStatus::Skipped);
    assert_eq!(status_of(&r(true, false, None)), FileStatus::Changed);
    assert_eq!(status_of(&r(false, false, None)), FileStatus::Unchanged);
}

#[test]
fn status_of_conversions() {
    assert_eq!(status_of(&convert_content(b"", LineEnding::LF, false).result), FileStatus::Skipped);
    assert_eq!(status_of(&convert_content(b"a\r\n", LineEnding::LF, true).result), FileStatus::Changed);
    assert_eq!(status_of(&convert_content(b"a\n", LineEnding::LF, false).result), FileStatus::Unchanged);
}

#[test]
fn tally_counts() {
    let mut t = Tally::new();
    assert_eq!(t, Tally { changed: 0, skipped: 0, unchanged: 0, errors: 0 });
    t.record(FileStatus::Changed);
    t.record(FileStatus::Changed);
    t.record(FileStatus::Skipped);
    t.record(FileStatus::Error);
    assert_eq!(t, Tally { changed: 2, skipped: 1, unchanged: 0, errors: 1 });
    assert!(t.has_room(FileStatus::Unchanged));
    let full = Tally { changed: u64::MAX, skipped: 0, unchanged: 0, errors: 0 };
    assert!(!full.has_room(FileStatus::Changed));
    assert!(full.has_room(FileStatus::Skipped));
}

// ---- walk steps ------------------------------------------------------------------

#[test]
fn file_steps_in_order() {
    let config = RuleConfig {
        ignore: IgnoreSection { patterns: strings(&["*.exe"]), paths: strings(&["vendor/"]) },
        ..RuleConfig::default()
    };
    let rules = Rules::load(Some(&config));
    let filter = IgnoreFilter::new(true, "/p", files(&[&["*.log"]]), rules.ignore_paths.clone());
    let step = |path: &str, symlink: bool, text: Option<bool>| {
        next_file_step(&rules, &filter, "/p", path, symlink, false, text)
    };
    assert_eq!(step("/p/a.rs", true, None), FileStep::Skip(SkipReason::Ignored));
    assert_eq!(step("/p/a.log", false, None), FileStep::Skip(SkipReason::Ignored));
    assert_eq!(step("/p/vendor/a.rs", false, None), FileStep::Skip(SkipReason::Ignored));
    assert_eq!(step("/p/tool.exe", false, None), FileStep::Skip(SkipReason::ConfigIgnored));
    assert_eq!(step("/p/a.rs", false, None), FileStep::InspectContent);
    assert_eq!(step("/p/a.rs", false, Some(false)), FileStep::Skip(SkipReason::Binary));
    assert_eq!(step("/p/a.rs", false, Some(true)), FileStep::Convert(LineEnding::LF));
    assert_eq!(step("/p/run.bat", false, Some(true)), FileStep::Convert(LineEnding::CRLF));
    assert_eq!(step("/p/sub/Makefile", false, Some(true)), FileStep::Convert(LineEnding::LF));
}
