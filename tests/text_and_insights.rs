use repomuse::bytes::{fnv1a_64, looks_binary};
use repomuse::digest::{FileInfo, RepoAnalysis, ScanMetrics, SizeMetrics};
use repomuse::gitlog::{git_log_from, git_status_from, parse_branches, parse_count, parse_git_log, parse_remotes};
use repomuse::suggest::{analyze_technology_profile, extract_project_keywords, generate_smart_suggestions, keyword_hits, ProjectKeywords};
use repomuse::text::{lines, split_text, trimmed};
use repomuse::response::{extract_key_features, extract_thinking_and_response, parse_structured_response};
use repomuse::insights::{default_max_tokens_ideas, default_max_tokens_summary, default_use_stop_ideas, get_ci_info, is_source_file, is_test_file, readme_info, CiFiles, ReadmeFile};
use repomuse::projects::{cargo_description_of, project_description, readme_title_of};

fn digest_of(files: Vec<(&str, &str)>) -> RepoAnalysis {
    RepoAnalysis {
        files: files
            .into_iter()
            .map(|(p, c)| FileInfo { path: p.to_string(), content: c.to_string(), language: "Unknown".to_string(), size: c.len() as u64 })
            .collect(),
        structure: vec![],
        technologies: vec![],
        metrics: ScanMetrics { total_files: 0, total_lines: 0, analyzed_files: 0 },
        size_metrics: SizeMetrics { total_size_bytes: 0, analyzed_size_bytes: 0, largest_files: vec![], size_by_language: vec![] },
        generated_at: None,
        from_cache: None,
        is_lazy_scan: None,
        scan_progress: None,
    }
}

#[test]
fn fnv_known_vectors() {
    assert_eq!(fnv1a_64(&vec![]), 0xcbf29ce484222325);
    assert_eq!(fnv1a_64(&b"a".to_vec()), 0xaf63dc4c8601ec8c);
    assert_eq!(fnv1a_64(&b"foobar".to_vec()), 0x85944171f73967e8);
}

#[test]
fn binary_sniffing() {
    assert!(looks_binary(&vec![b'a', 0, b'b']));
    assert!(!looks_binary(&b"plain text\n\twith tabs\r\n".to_vec()));
    assert!(looks_binary(&vec![1, 2, 3, b'a']));
    assert!(!looks_binary(&vec![1, 2, 3, b'a', b'b', b'c', b'd', b'e', b'f', b'g']));
    assert!(!looks_binary(&vec![]));
}

#[test]
fn text_helpers() {
    assert_eq!(lines("a\r\nb\n\nc"), vec!["a", "b", "", "c"]);
    assert_eq!(lines("x\n"), vec!["x"]);
    assert!(lines("").is_empty());
    assert_eq!(trimmed("  \t hi there \u{3000}\n"), "hi there");
    assert_eq!(split_text("a--b----c", "--"), vec!["a", "b", "", "c"]);
    assert_eq!(split_text("abc", "--"), vec!["abc"]);
    assert_eq!(split_text("--", "--"), vec!["", ""]);
}

#[test]
fn keyword_hits_match_topics() {
    let h = keyword_hits("uses the rest api and jwt login", "/p/src/server.rs");
    assert!(h.api && h.auth && !h.database && !h.ui);
    let ci = keyword_hits("name: build", "/p/.github/workflows/ci.yml");
    assert!(ci.cicd);
}

#[test]
fn keywords_profile_and_suggestions() {
    let d = digest_of(vec![
        ("/p/src/api.ts", "import React from 'react'\nconst GraphQL_Endpoint = 1;"),
        ("/p/src/db.ts", "CREATE TABLE t; -- SQL schema"),
        ("/p/src/api.ts", "duplicate API path"),
    ]);
    let k = extract_project_keywords(&d);
    assert_eq!(k.api_related, vec!["/p/src/api.ts".to_string()]);
    assert_eq!(k.database_related, vec!["/p/src/db.ts".to_string()]);
    assert_eq!(k.ui_related, vec!["/p/src/api.ts".to_string()]);
    let p = analyze_technology_profile(&d, &k);
    assert_eq!(p.frameworks, vec!["React".to_string()]);
    assert!(p.has_api && p.has_ui && p.has_database && !p.has_auth);
    assert_eq!(p.project_type, "Full-Stack Web Application");
    let s = generate_smart_suggestions(&p, &k);
    assert_eq!(
        s,
        vec![
            "API rate limiting to prevent abuse",
            "API versioning strategy for backward compatibility",
            "API documentation with OpenAPI/Swagger",
            "Database indexing strategy for query optimization",
            "Automated database backup and recovery system",
            "Connection pooling for database performance",
            "CI/CD pipeline setup for automated testing and deployment",
            "Responsive design improvements for mobile devices",
            "Accessibility (a11y) compliance and screen reader support",
            "Dark mode theme support",
            "Caching strategy for improved performance",
            "Lazy loading for better initial load times",
            "Security audit logging system",
            "CORS configuration for API security",
        ]
    );
}

#[test]
fn profile_of_desktop_app() {
    let d = digest_of(vec![("/p/src-tauri/src/main.rs", "fn main() { tauri::Builder::default(); }")]);
    let k = extract_project_keywords(&d);
    let p = analyze_technology_profile(&d, &k);
    assert_eq!(p.frameworks, vec!["Tauri".to_string()]);
    assert_eq!(p.project_type, "Desktop Application");
    let empty = ProjectKeywords::new();
    let g = analyze_technology_profile(&digest_of(vec![]), &empty);
    assert_eq!(g.project_type, "General Application");
    assert_eq!(
        generate_smart_suggestions(&g, &empty),
        vec!["CI/CD pipeline setup for automated testing and deployment", "Security audit logging system"]
    );
}

#[test]
fn git_log_parsing() {
    let text = "abc123\nAda\n2024-01-02T03:04:05+00:00\nFix bug\n---COMMIT-SEPARATOR---\ndef456\nBob\n2024-01-01T00:00:00+00:00\nFirst\nmore\n---COMMIT-SEPARATOR---\n";
    let commits = parse_git_log(text);
    assert_eq!(commits.len(), 2);
    assert_eq!(commits[0].hash, "abc123");
    assert_eq!(commits[0].author, "Ada");
    assert_eq!(commits[0].message, "Fix bug");
    assert_eq!(commits[1].message, "First\nmore");
    assert!(parse_git_log("").is_empty());
}

#[test]
fn git_branches_remotes_and_count() {
    assert_eq!(parse_branches("* main\n  dev\n\n  remotes/origin/main\n"), vec!["main", "dev", "remotes/origin/main"]);
    let r = parse_remotes("origin\tgit@x:a.git (fetch)\norigin\tgit@x:a.git (push)\nup  https://y/b.git (fetch)\nbad\n");
    assert_eq!(r.len(), 2);
    assert_eq!(r[0].name, "origin");
    assert_eq!(r[0].url, "git@x:a.git");
    assert_eq!(r[1].name, "up");
    assert_eq!(r[1].url, "https://y/b.git");
    assert_eq!(parse_count(" 42\n"), Some(42));
    assert_eq!(parse_count("+7"), Some(7));
    assert_eq!(parse_count("-1"), None);
    assert_eq!(parse_count(""), None);
    assert_eq!(parse_count("99999999999999999999999"), None);
    let log = git_log_from("h\na\nd\nm\n---COMMIT-SEPARATOR---", Some("* main".to_string()), Some(" main\n".to_string()), None);
    assert_eq!(log.total_commits, 1);
    assert_eq!(log.current_branch, Some("main".to_string()));
    assert_eq!(log.branches, vec!["main".to_string()]);
    let log2 = git_log_from("", None, None, Some("12\n".to_string()));
    assert_eq!(log2.total_commits, 12);
    let st = git_status_from(true, Some("o u (fetch)".to_string()));
    assert_eq!(st.remotes.len(), 1);
    assert!(git_status_from(false, Some("o u (fetch)".to_string())).remotes.is_empty());
}

#[test]
fn reply_reasoning_split() {
    use_reply_helpers();
}

fn use_reply_helpers() {
    let (t, a) = extract_thinking_and_response("<think> plan it </think>\n The answer. ");
    assert_eq!(t, Some("plan it".to_string()));
    assert_eq!(a, "The answer.");
    let (t2, a2) = extract_thinking_and_response("x <think>a</think>b</think>c");
    assert_eq!(t2, Some("a".to_string()));
    assert_eq!(a2, "b</think>c");
    let (t3, a3) = extract_thinking_and_response(" no reasoning <think> open only ");
    assert_eq!(t3, None);
    assert_eq!(a3, " no reasoning <think> open only ");
}

#[test]
fn key_features_from_summary() {
    let s = "Overview\n- Fast scans\n  • Cached digests  \n-\n* not a dash\n--- Double dash kept";
    assert_eq!(extract_key_features(s), vec!["Fast scans", "Cached digests", "Double dash kept"]);
    let long = format!("- {}", "x".repeat(250));
    assert!(extract_key_features(&long).is_empty());
}

#[test]
fn structured_ideas() {
    let reply = "1. Add a rate limiter to the public API\n   with per-key budgets\n2. short\n- Cache directory listings between scans\n\nTrailing words";
    let ideas = parse_structured_response(reply);
    assert_eq!(
        ideas,
        vec![
            "Add a rate limiter to the public API with per-key budgets",
            "Cache directory listings between scans  Trailing words",
        ]
    );
}

#[test]
fn ci_readme_and_test_files() {
    let ci = get_ci_info(&CiFiles {
        github_workflows: true,
        workflow_names: vec!["ci.yml".to_string()],
        gitlab_ci: false,
        travis: true,
        circleci: false,
        jenkins: false,
        azure: false,
        buildkite: false,
    });
    assert!(ci.has_ci);
    assert_eq!(ci.ci_platforms, vec!["GitHub Actions", "Travis CI"]);
    assert_eq!(ci.ci_files, vec![".github/workflows/ci.yml", ".travis.yml"]);
    let r = readme_info(Some(ReadmeFile { path: "/p/README.md".to_string(), text: Some("y".repeat(300)) }));
    assert!(r.exists);
    assert_eq!(r.content_preview.unwrap().chars().count(), 200);
    assert!(!readme_info(None).exists);
    assert!(is_test_file("app.test.ts", "/p/src/app.test.ts"));
    assert!(is_test_file("test_io.py", "/p/test_io.py"));
    assert!(is_test_file("util.rs", "/p/tests/util.rs"));
    assert!(!is_test_file("main.rs", "/p/src/main.rs"));
    assert!(is_source_file("main.rs"));
    assert!(!is_source_file("README.md"));
    assert_eq!(default_max_tokens_ideas(), 1500);
    assert_eq!(default_max_tokens_summary(), 1200);
    assert!(default_use_stop_ideas());
}

#[test]
fn project_descriptions() {
    assert_eq!(
        cargo_description_of("[package]\nname = \"x\"\ndescription = \"A scanner\"\n"),
        Some("A scanner".to_string())
    );
    assert_eq!(cargo_description_of("[package]\nname = \"x\"\n"), None);
    assert_eq!(readme_title_of("# My Project\nmore"), Some("My Project".to_string()));
    assert_eq!(readme_title_of("###\n"), None);
    assert_eq!(
        project_description(None, Some("name = 1\n".to_string()), &vec!["".to_string(), "## Tool".to_string()]),
        Some("Tool".to_string())
    );
    assert_eq!(project_description(Some("From package".to_string()), None, &vec![]), Some("From package".to_string()));
    assert_eq!(project_description(None, None, &vec![]), None);
}
