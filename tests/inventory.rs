use file_inventory::aggregate::{detect_types, type_summary, FileTypeInfo};
use file_inventory::commands::{read_files_content, scan_directory, ReadRequest};
use file_inventory::decode::{count_lines, decode_bytes, pick_decoding, read_file_content};
use file_inventory::ignore::{file_extension, lower_extension, should_ignore};
use file_inventory::language::ext_to_language;
use file_inventory::scanner::{parse_gitignore, scan_dir, split_lines, FileInfo, WalkEntry};
use file_inventory::text::{compare_str, join_with_slash, to_forward_slashes, trim_trailing_slashes};

fn strings(v: &[&str]) -> Vec<String> {
    v.iter().map(|s| s.to_string()).collect()
}

fn entry(path: &str, rel: &str, size: u64) -> WalkEntry {
    WalkEntry {
        path: path.to_string(),
        segments: strings(&rel.split('/').collect::<Vec<_>>()),
        size,
    }
}

fn ignored(rel: &str, custom: &[&str], git: &[&str]) -> bool {
    let segs = strings(&rel.split('/').collect::<Vec<_>>());
    let name = segs.last().unwrap().clone();
    should_ignore(&segs, &name, &strings(custom), &strings(git))
}

fn info(rel: &str, ext: &str, size: u64, language: &str) -> FileInfo {
    FileInfo {
        path: format!("/root/{}", rel),
        relative_path: rel.to_string(),
        name: rel.rsplit('/').next().unwrap().to_string(),
        ext: ext.to_string(),
        size,
        language: language.to_string(),
    }
}

#[test]
fn language_table_known_and_unknown() {
    assert_eq!(ext_to_language("rs"), "Rust");
    assert_eq!(ext_to_language("cc"), "C++");
    assert_eq!(ext_to_language("yml"), "YAML");
    assert_eq!(ext_to_language("tsx"), "TypeScript (TSX)");
    assert_eq!(ext_to_language("xyz"), "Unknown");
    assert_eq!(ext_to_language(""), "Unknown");
}

#[test]
fn extension_rules() {
    assert_eq!(file_extension("main.rs"), "rs");
    assert_eq!(file_extension("archive.tar.gz"), "gz");
    assert_eq!(file_extension(".gitignore"), "");
    assert_eq!(file_extension("Makefile"), "");
    assert_eq!(file_extension("trailing."), "");
    assert_eq!(lower_extension("PHOTO.PNG"), "png");
}

#[test]
fn text_helpers() {
    assert_eq!(trim_trailing_slashes("build//"), "build");
    assert_eq!(trim_trailing_slashes("a/b"), "a/b");
    assert_eq!(to_forward_slashes("C:\\work\\src\\main.rs"), "C:/work/src/main.rs");
    assert_eq!(join_with_slash(&strings(&["src", "lib.rs"])), "src/lib.rs");
    assert!(compare_str("a", "b") < 0);
    assert!(compare_str("ab", "a") > 0);
    assert_eq!(compare_str("same", "same"), 0);
}

#[test]
fn builtin_directory_excludes_at_any_depth() {
    assert!(ignored("node_modules/pkg/index.js", &[], &[]));
    assert!(ignored("web/app/node_modules/pkg/deep/index.js", &[], &[]));
    assert!(ignored("target/debug/main.rs", &[], &[]));
    assert!(!ignored("src/main.rs", &[], &[]));
}

#[test]
fn builtin_directory_name_as_file_name_is_kept() {
    assert!(!ignored("docs/build", &[], &[]));
}

#[test]
fn builtin_files_and_extensions() {
    assert!(ignored("package-lock.json", &[], &[]));
    assert!(ignored("sub/.DS_Store", &[], &[]));
    assert!(ignored("img/logo.png", &[], &[]));
    assert!(ignored("img/LOGO.PNG", &[], &[]));
    assert!(!ignored("package.json", &[], &[]));
}

#[test]
fn minified_suffix_excludes() {
    assert!(ignored("app.min.js", &[], &[]));
    assert!(ignored("static/theme.MIN.CSS", &[], &[]));
    assert!(!ignored("app.js", &[], &[]));
}

#[test]
fn bare_pattern_excludes_directory_subtree() {
    assert!(ignored("generated/a.rs", &["generated"], &[]));
    assert!(ignored("x/generated/y/b.rs", &["generated"], &[]));
    assert!(ignored("x/generated/y/b.rs", &["generated/"], &[]));
    assert!(!ignored("x/generated_code/b.rs", &["generated"], &[]));
    assert!(ignored("notes.txt", &["notes.txt"], &[]));
}

#[test]
fn glob_pattern_excludes_only_matching() {
    assert!(ignored("src/api.generated.ts", &["*.generated.*"], &[]));
    assert!(!ignored("src/api.ts", &["*.generated.*"], &[]));
    assert!(ignored("logs/today.log", &[], &["*.log"]));
    assert!(ignored("docs/a/readme.md", &["docs/*"], &[]));
    assert!(!ignored("src/readme.md", &["docs/*"], &[]));
}

#[test]
fn malformed_glob_is_inert() {
    assert!(!ignored("src/main.rs", &["[abc"], &[]));
    assert!(ignored("src/main.rs", &["[abc", "*.rs"], &[]));
}

#[test]
fn gitignore_drops_blank_and_comment_lines() {
    let p = parse_gitignore("# comment\n\n  \nnode_out/\r\n  *.log  \n   # indented comment\ncache");
    assert_eq!(p, strings(&["node_out/", "*.log", "cache"]));
    assert!(parse_gitignore("").is_empty());
    assert!(parse_gitignore("#only\n\n").is_empty());
}

#[test]
fn lines_split_like_std() {
    assert_eq!(split_lines("a\nb\r\nc"), strings(&["a", "b", "c"]));
    assert_eq!(split_lines("a\n"), strings(&["a"]));
    assert_eq!(split_lines("\n\n"), strings(&["", ""]));
    assert_eq!(count_lines(""), 0);
    assert_eq!(count_lines("one"), 1);
    assert_eq!(count_lines("one\ntwo\n"), 2);
    assert_eq!(count_lines("one\r\ntwo\nthree"), 3);
}

#[test]
fn scan_sorts_filters_and_builds_records() {
    let entries = vec![
        entry("/p/src/z.rs", "src/z.rs", 10),
        entry("/p/README", "README", 5),
        entry("/p/node_modules/x/y.js", "node_modules/x/y.js", 7),
        entry("/p/src/a.TS", "src/a.TS", 3),
        entry("/p/logo.png", "logo.png", 9),
    ];
    let r = scan_dir(&entries, &vec![], &vec![]);
    let rels: Vec<&str> = r.iter().map(|f| f.relative_path.as_str()).collect();
    assert_eq!(rels, vec!["README", "src/a.TS", "src/z.rs"]);
    assert_eq!(r[0].ext, "");
    assert_eq!(r[0].language, "Unknown");
    assert_eq!(r[1].ext, ".ts");
    assert_eq!(r[1].language, "TypeScript");
    assert_eq!(r[1].name, "a.TS");
    assert_eq!(r[1].size, 3);
    assert_eq!(r[2].path, "/p/src/z.rs");
    assert_eq!(r[2].language, "Rust");
}

#[test]
fn scan_applies_gitignore_patterns() {
    let entries = vec![entry("/p/a.log", "a.log", 1), entry("/p/b.rs", "b.rs", 1)];
    let git = parse_gitignore("# logs\n*.log\n");
    let r = scan_dir(&entries, &vec![], &git);
    assert_eq!(r.len(), 1);
    assert_eq!(r[0].relative_path, "b.rs");
}

#[test]
fn scan_normalizes_backslashes() {
    let entries = vec![entry("C:\\p\\src\\m.rs", "src/m.rs", 1)];
    let r = scan_dir(&entries, &vec![], &vec![]);
    assert_eq!(r[0].path, "C:/p/src/m.rs");
    assert_eq!(r[0].relative_path, "src/m.rs");
}

#[test]
fn scan_of_nothing_is_empty() {
    let r = scan_dir(&vec![], &strings(&["x"]), &vec![]);
    assert!(r.is_empty());
    let s = scan_directory(&vec![], &vec![], &vec![]);
    assert!(s.success);
    assert!(s.files.is_empty());
    assert!(s.error.is_none());
}

#[test]
fn scan_has_no_duplicate_relative_paths() {
    let entries = vec![
        entry("/p/b.rs", "b.rs", 1),
        entry("/p/a.rs", "a.rs", 1),
        entry("/p/b.rs", "b.rs", 2),
    ];
    let r = scan_dir(&entries, &vec![], &vec![]);
    let rels: Vec<&str> = r.iter().map(|f| f.relative_path.as_str()).collect();
    assert_eq!(rels, vec!["a.rs", "b.rs"]);
}

fn bucket<'a>(t: &'a [FileTypeInfo], ext: &str) -> &'a FileTypeInfo {
    t.iter().find(|b| b.ext == ext).unwrap()
}

#[test]
fn aggregation_sums_sizes_per_extension() {
    let files = vec![info("a.rs", ".rs", 100, "Rust"), info("b.rs", ".rs", 250, "Rust")];
    let t = type_summary(&files);
    assert_eq!(t.len(), 1);
    assert_eq!(t[0].ext, ".rs");
    assert_eq!(t[0].language, "Rust");
    assert_eq!(t[0].count, 2);
    assert_eq!(t[0].total_size, 350);
}

#[test]
fn aggregation_skips_files_without_extension() {
    let entries = vec![entry("/p/Makefile", "Makefile", 40), entry("/p/m.go", "m.go", 2)];
    let scan = scan_dir(&entries, &vec![], &vec![]);
    assert_eq!(scan.len(), 2);
    let t = detect_types(&vec![scan]);
    assert_eq!(t.len(), 1);
    assert_eq!(t[0].ext, ".go");
    assert_eq!(t[0].count, 1);
    assert_eq!(t[0].total_size, 2);
}

#[test]
fn aggregation_over_roots_sorted_by_count() {
    let a = vec![info("x.md", ".md", 1, "Markdown"), info("y.py", ".py", 2, "Python")];
    let b = vec![info("z.py", ".py", 3, "Python"), info("w.py", ".py", 4, "Python"), info("x.md", ".md", 1, "Markdown")];
    let t = detect_types(&vec![a, b]);
    assert_eq!(t.len(), 2);
    assert_eq!(t[0].ext, ".py");
    assert_eq!(t[0].count, 3);
    assert_eq!(t[0].total_size, 9);
    assert_eq!(t[1].ext, ".md");
    assert_eq!(t[1].count, 2);
    assert_eq!(bucket(&t, ".md").total_size, 2);
    assert!(detect_types(&vec![]).is_empty());
}

#[test]
fn decode_ascii_and_utf8() {
    assert_eq!(decode_bytes(b"hello\nworld\n"), "hello\nworld\n");
    assert_eq!(decode_bytes("h\u{e9}llo".as_bytes()), "h\u{e9}llo");
    assert_eq!(decode_bytes(b""), "");
}

#[test]
fn decode_gbk_bytes() {
    let gbk: Vec<u8> = vec![0xD6, 0xD0, 0xCE, 0xC4];
    assert!(std::str::from_utf8(&gbk).is_err());
    assert_eq!(decode_bytes(&gbk), "\u{4e2d}\u{6587}");
}

#[test]
fn pick_first_clean_attempt() {
    let a = vec![("x".to_string(), true), ("y".to_string(), false), ("z".to_string(), false)];
    assert_eq!(pick_decoding(a), "y");
    let b = vec![("x".to_string(), true), ("y".to_string(), true)];
    assert_eq!(pick_decoding(b), "x");
}

#[test]
fn read_outcome_passes_error_through() {
    assert_eq!(read_file_content(Ok(b"abc".to_vec())), Ok("abc".to_string()));
    assert_eq!(read_file_content(Err("gone".to_string())), Err("gone".to_string()));
}

fn request(path: &str) -> ReadRequest {
    ReadRequest {
        path: path.to_string(),
        relative_path: path.trim_start_matches('/').to_string(),
        name: path.rsplit('/').next().unwrap().to_string(),
        ext: ".txt".to_string(),
    }
}

#[test]
fn batch_read_isolates_failures() {
    let reqs = vec![request("/a.txt"), request("/missing.txt"), request("/c.txt")];
    let reads = vec![
        Ok(b"one\ntwo".to_vec()),
        Err("no such file".to_string()),
        Ok(vec![0xD6, 0xD0]),
    ];
    let r = read_files_content(&reqs, &reads);
    assert!(r.success);
    assert_eq!(r.files.len(), 3);
    assert_eq!(r.files[0].content, "one\ntwo");
    assert_eq!(r.files[0].line_count, 2);
    assert!(r.files[0].error.is_none());
    assert_eq!(r.files[1].path, "/missing.txt");
    assert_eq!(r.files[1].relative_path, "missing.txt");
    assert_eq!(r.files[1].content, "");
    assert_eq!(r.files[1].line_count, 0);
    assert_eq!(r.files[1].error.as_deref(), Some("no such file"));
    assert_eq!(r.files[2].content, "\u{4e2d}");
    assert_eq!(r.files[2].line_count, 1);
}

#[test]
fn equal_counts_keep_first_occurrence_order() {
    let files = vec![
        info("a.md", ".md", 1, "Markdown"),
        info("b.go", ".go", 1, "Go"),
        info("c.rs", ".rs", 1, "Rust"),
        info("d.go", ".go", 1, "Go"),
        info("e.toml", ".toml", 1, "TOML"),
    ];
    let t = type_summary(&files);
    let exts: Vec<&str> = t.iter().map(|b| b.ext.as_str()).collect();
    assert_eq!(exts, vec![".go", ".md", ".rs", ".toml"]);
    let again = type_summary(&files);
    let exts_again: Vec<&str> = again.iter().map(|b| b.ext.as_str()).collect();
    assert_eq!(exts, exts_again);
}

#[test]
fn gitignore_example_with_indented_pattern() {
    let p = parse_gitignore("# deps\n\n   \nnode_modules/\n  *.log  \n#x\n");
    assert_eq!(p, strings(&["node_modules/", "*.log"]));
}

#[test]
fn gitignore_of_comments_only_changes_nothing() {
    let entries = vec![entry("/p/a.log", "a.log", 1), entry("/p/b.rs", "b.rs", 1)];
    let git = parse_gitignore("# nothing here\n\n   \n");
    assert!(git.is_empty());
    let with = scan_dir(&entries, &vec![], &git);
    let without = scan_dir(&entries, &vec![], &vec![]);
    let a: Vec<&str> = with.iter().map(|f| f.relative_path.as_str()).collect();
    let b: Vec<&str> = without.iter().map(|f| f.relative_path.as_str()).collect();
    assert_eq!(a, b);
}

#[test]
fn extensionless_file_is_listed_as_unknown() {
    let entries = vec![entry("/p/Makefile", "Makefile", 12)];
    let r = scan_dir(&entries, &vec![], &vec![]);
    assert_eq!(r.len(), 1);
    assert_eq!(r[0].relative_path, "Makefile");
    assert_eq!(r[0].name, "Makefile");
    assert_eq!(r[0].ext, "");
    assert_eq!(r[0].language, "Unknown");
}

#[test]
fn decode_gbk_greeting() {
    let bytes: Vec<u8> = vec![0xC4, 0xE3, 0xBA, 0xC3];
    assert_eq!(read_file_content(Ok(bytes)), Ok("\u{4f60}\u{597d}".to_string()));
}
