//! Keyword profile of a digest, the technology profile drawn from it, and
//! the improvement suggestions that follow.

use vstd::prelude::*;
use crate::digest::{FileInfo, RepoAnalysis};
use crate::text::{chars_of, contains_str, owned, seq_contains, str_eq};

verus! {

/// Name for what `str::to_lowercase` makes of a string.
pub uninterp spec fn lower_of(s: Seq<char>) -> Seq<char>;

/// Relies on std's `str::to_lowercase`: the lowercase form, which depends
/// on the characters alone.
#[verifier::external_body]
fn lowercase(s: &str) -> (r: String)
    ensures
        r@ == lower_of(s@),
{
    s.to_lowercase()
}

/// Paths of the files that mention each topic, each once, in the digest's order.
#[derive(Debug, Clone)]
pub struct ProjectKeywords {
    pub api_related: Vec<String>,
    pub auth_related: Vec<String>,
    pub database_related: Vec<String>,
    pub testing_related: Vec<String>,
    pub cicd_related: Vec<String>,
    pub ui_related: Vec<String>,
    pub performance_related: Vec<String>,
    pub security_related: Vec<String>,
}

/// Which topics one file mentions.
#[derive(Debug, Clone, Copy, PartialEq, Eq)]
pub struct KeywordHits {
    pub api: bool,
    pub auth: bool,
    pub database: bool,
    pub testing: bool,
    pub cicd: bool,
    pub ui: bool,
    pub performance: bool,
    pub security: bool,
}

/// What a project appears to be built with and for.
#[derive(Debug, Clone)]
pub struct TechnologyProfile {
    pub frameworks: Vec<String>,
    pub has_api: bool,
    pub has_auth: bool,
    pub has_database: bool,
    pub has_testing: bool,
    pub has_cicd: bool,
    pub has_ui: bool,
    pub project_type: String,
}

/// Whether `s` holds one of `terms`.
pub open spec fn mentions(s: Seq<char>, terms: Seq<Seq<char>>) -> bool {
    exists|i: int| 0 <= i < terms.len() && seq_contains(s, #[trigger] terms[i])
}

/// The terms of each topic (0 API, 1 authentication, 2 database, 3 testing,
/// 4 CI/CD, 5 UI, 6 performance, 7 security).
pub open spec fn topic_terms(t: int) -> Seq<Seq<char>> {
    if t == 0 {
        seq!["api"@, "endpoint"@, "rest"@, "graphql"@, "swagger"@, "openapi"@]
    } else if t == 1 {
        seq!["auth"@, "login"@, "jwt"@, "oauth"@, "session"@, "password"@]
    } else if t == 2 {
        seq!["database"@, "sql"@, "mongo"@, "redis"@, "postgres"@, "mysql"@, "migration"@, "schema"@]
    } else if t == 3 {
        seq!["test"@, "spec"@, "jest"@, "mocha"@, "vitest"@, "cypress"@]
    } else if t == 4 {
        seq!["pipeline"@, "deploy"@, "docker"@, "kubernetes"@]
    } else if t == 5 {
        seq!["component"@, "react"@, "vue"@, "angular"@, "tailwind"@, "css"@]
    } else if t == 6 {
        seq!["cache"@, "optimize"@, "performance"@, "lazy"@, "memoize"@, "throttle"@]
    } else {
        seq!["security"@, "encrypt"@, "cors"@, "xss"@, "csrf"@, "sanitize"@]
    }
}

/// Whether a file at `path` whose lowercased content is `lower` mentions topic `t`.
pub open spec fn topic_hit(lower: Seq<char>, path: Seq<char>, t: int) -> bool {
    mentions(lower, topic_terms(t)) || (t == 4 && (seq_contains(path, ".github/workflows"@) || seq_contains(path, "gitlab-ci"@)))
}

/// The hits as a function of the topic number.
pub open spec fn hit_of(h: KeywordHits, t: int) -> bool {
    if t == 0 { h.api } else if t == 1 { h.auth } else if t == 2 { h.database } else if t == 3 { h.testing }
    else if t == 4 { h.cicd } else if t == 5 { h.ui } else if t == 6 { h.performance } else { h.security }
}

fn topic_term_list(t: usize) -> (r: Vec<&'static str>)
    requires
        t < 8,
    ensures
        r@.len() == topic_terms(t as int).len(),
        forall|i: int| 0 <= i < r@.len() ==> r@[i]@ == topic_terms(t as int)[i],
{
    if t == 0 {
        vec!["api", "endpoint", "rest", "graphql", "swagger", "openapi"]
    } else if t == 1 {
        vec!["auth", "login", "jwt", "oauth", "session", "password"]
    } else if t == 2 {
        vec!["database", "sql", "mongo", "redis", "postgres", "mysql", "migration", "schema"]
    } else if t == 3 {
        vec!["test", "spec", "jest", "mocha", "vitest", "cypress"]
    } else if t == 4 {
        vec!["pipeline", "deploy", "docker", "kubernetes"]
    } else if t == 5 {
        vec!["component", "react", "vue", "angular", "tailwind", "css"]
    } else if t == 6 {
        vec!["cache", "optimize", "performance", "lazy", "memoize", "throttle"]
    } else {
        vec!["security", "encrypt", "cors", "xss", "csrf", "sanitize"]
    }
}

fn mentions_any(hay: &Vec<char>, t: usize) -> (r: bool)
    requires
        t < 8,
    ensures
        r == mentions(hay@, topic_terms(t as int)),
{
    let terms = topic_term_list(t);
    let ghost ts = topic_terms(t as int);
    let mut i: usize = 0;
    while i < terms.len()
        invariant
            ts == topic_terms(t as int),
            terms@.len() == ts.len(),
            forall|j: int| 0 <= j < terms@.len() ==> terms@[j]@ == ts[j],
            i <= terms@.len(),
            forall|j: int| 0 <= j < i ==> !seq_contains(hay@, #[trigger] ts[j]),
        decreases terms.len() - i,
    {
        if contains_str(hay, terms[i]) {
            assert(seq_contains(hay@, ts[i as int]));
            return true;
        }
        i = i + 1;
    }
    false
}

/// Which topics a file at `path` mentions, given its lowercased content `lower`.
pub fn keyword_hits(lower: &str, path: &str) -> (h: KeywordHits)
    ensures
        forall|t: int| 0 <= t < 8 ==> #[trigger] hit_of(h, t) == topic_hit(lower@, path@, t),
{
    let cs = chars_of(lower);
    let ps = chars_of(path);
    let h = KeywordHits {
        api: mentions_any(&cs, 0),
        auth: mentions_any(&cs, 1),
        database: mentions_any(&cs, 2),
        testing: mentions_any(&cs, 3),
        cicd: contains_str(&ps, ".github/workflows") || contains_str(&ps, "gitlab-ci") || mentions_any(&cs, 4),
        ui: mentions_any(&cs, 5),
        performance: mentions_any(&cs, 6),
        security: mentions_any(&cs, 7),
    };
    h
}

/// Whether file `f` mentions topic `t`.
pub open spec fn file_hits(f: FileInfo, t: int) -> bool {
    topic_hit(lower_of(f.content@), f.path@, t)
}

/// The paths of the files that mention topic `t`, each once, in order.
pub open spec fn topic_paths(files: Seq<FileInfo>, t: int) -> Seq<Seq<char>>
    decreases files.len(),
{
    if files.len() == 0 {
        Seq::empty()
    } else {
        let rest = topic_paths(files.drop_last(), t);
        let f = files.last();
        if file_hits(f, t) && !rest.contains(f.path@) { rest.push(f.path@) } else { rest }
    }
}

/// The views of a list of strings.
pub open spec fn views(v: Seq<String>) -> Seq<Seq<char>> {
    v.map_values(|s: String| s@)
}

impl ProjectKeywords {
    /// The list of topic `t`.
    pub open spec fn list(&self, t: int) -> Seq<String> {
        if t == 0 { self.api_related@ } else if t == 1 { self.auth_related@ } else if t == 2 { self.database_related@ }
        else if t == 3 { self.testing_related@ } else if t == 4 { self.cicd_related@ } else if t == 5 { self.ui_related@ }
        else if t == 6 { self.performance_related@ } else { self.security_related@ }
    }

    /// Empty lists.
    pub fn new() -> (r: ProjectKeywords)
        ensures
            forall|t: int| 0 <= t < 8 ==> #[trigger] r.list(t).len() == 0,
    {
        ProjectKeywords {
            api_related: Vec::new(),
            auth_related: Vec::new(),
            database_related: Vec::new(),
            testing_related: Vec::new(),
            cicd_related: Vec::new(),
            ui_related: Vec::new(),
            performance_related: Vec::new(),
            security_related: Vec::new(),
        }
    }
}

/// Appends `s` to `v` unless `v` already holds it.
fn push_new(v: &mut Vec<String>, s: &String)
    ensures
        views(final(v)@) == if views(old(v)@).contains(s@) { views(old(v)@) } else { views(old(v)@).push(s@) },
{
    let mut i: usize = 0;
    while i < v.len()
        invariant
            i <= v@.len(),
            forall|j: int| 0 <= j < i ==> v@[j]@ != s@,
        decreases v.len() - i,
    {
        if str_eq(v[i].as_str(), s.as_str()) {
            assert(views(v@)[i as int] == s@);
            return;
        }
        i = i + 1;
    }
    let ghost v0 = v@;
    v.push(s.clone());
    proof {
        assert(views(v@) =~= views(v0).push(s@));
        assert(!views(v0).contains(s@)) by {
            if views(v0).contains(s@) {
                let j = choose|j: int| 0 <= j < views(v0).len() && views(v0)[j] == s@;
                assert(v0[j]@ == s@);
            }
        }
    }
}

fn push_if(v: &mut Vec<String>, hit: bool, s: &String)
    ensures
        views(final(v)@) == if hit && !views(old(v)@).contains(s@) { views(old(v)@).push(s@) } else { views(old(v)@) },
{
    if hit {
        push_new(v, s);
    }
}

/// The files of `analysis` that mention each topic, matched on their
/// lowercased content (and, for CI/CD, their path).
pub fn extract_project_keywords(analysis: &RepoAnalysis) -> (k: ProjectKeywords)
    ensures
        forall|t: int| 0 <= t < 8 ==> #[trigger] views(k.list(t)) == topic_paths(analysis.files@, t),
{
    let files = &analysis.files;
    let mut k = ProjectKeywords::new();
    let mut i: usize = 0;
    while i < files.len()
        invariant
            files@ == analysis.files@,
            i <= files@.len(),
            forall|t: int| 0 <= t < 8 ==> #[trigger] views(k.list(t)) == topic_paths(files@.subrange(0, i as int), t),
        decreases files.len() - i,
    {
        let f = &files[i];
        let lower = lowercase(f.content.as_str());
        let h = keyword_hits(lower.as_str(), f.path.as_str());
        let ghost k0 = k;
        push_if(&mut k.api_related, h.api, &f.path);
        push_if(&mut k.auth_related, h.auth, &f.path);
        push_if(&mut k.database_related, h.database, &f.path);
        push_if(&mut k.testing_related, h.testing, &f.path);
        push_if(&mut k.cicd_related, h.cicd, &f.path);
        push_if(&mut k.ui_related, h.ui, &f.path);
        push_if(&mut k.performance_related, h.performance, &f.path);
        push_if(&mut k.security_related, h.security, &f.path);
        proof {
            let q = files@.subrange(0, i + 1);
            assert(q.drop_last() == files@.subrange(0, i as int));
            assert(q.last() == *f);
            assert forall|t: int| 0 <= t < 8 implies #[trigger] views(k.list(t)) == topic_paths(q, t) by {
                assert(hit_of(h, t) == file_hits(*f, t));
                assert(views(k0.list(t)) == topic_paths(files@.subrange(0, i as int), t));
                assert(views(k.list(t)) == if hit_of(h, t) && !views(k0.list(t)).contains(f.path@) {
                    views(k0.list(t)).push(f.path@)
                } else {
                    views(k0.list(t))
                });
            }
        }
        i = i + 1;
    }
    proof {
        assert(files@.subrange(0, files@.len() as int) == files@);
    }
    k
}

/// The frameworks that can be detected, in ascending order, with the
/// content markers of each.
pub open spec fn framework_names() -> Seq<Seq<char>> {
    seq!["Django"@, "Express"@, "Flask"@, "Next.js"@, "React"@, "Spring Boot"@, "Tauri"@, "Vue"@]
}

/// Whether file `f` shows framework number `n` of `framework_names`.
pub open spec fn shows_framework(f: FileInfo, n: int) -> bool {
    let c = f.content@;
    if n == 0 {
        seq_contains(c, "from django"@) || seq_contains(c, "django."@)
    } else if n == 1 {
        seq_contains(c, "express()"@) || seq_contains(c, "from 'express'"@)
    } else if n == 2 {
        seq_contains(c, "from flask"@) || seq_contains(c, "Flask("@)
    } else if n == 3 {
        seq_contains(c, "from 'next'"@) || seq_contains(c, "next/"@)
    } else if n == 4 {
        seq_contains(c, "import React"@) || seq_contains(c, "from 'react'"@)
    } else if n == 5 {
        seq_contains(c, "@SpringBoot"@) || seq_contains(c, "springframework"@)
    } else if n == 6 {
        seq_contains(c, "tauri::"@) || seq_contains(f.path@, "tauri"@)
    } else {
        seq_contains(c, "from 'vue'"@) || seq_contains(c, "Vue."@)
    }
}

/// Whether some file shows framework `n`.
pub open spec fn framework_used(files: Seq<FileInfo>, n: int) -> bool {
    exists|i: int| 0 <= i < files.len() && shows_framework(#[trigger] files[i], n)
}

/// The detected frameworks, in ascending order.
pub open spec fn frameworks_of(files: Seq<FileInfo>, upto: int) -> Seq<Seq<char>>
    decreases upto,
{
    if upto <= 0 {
        Seq::empty()
    } else {
        let rest = frameworks_of(files, upto - 1);
        if framework_used(files, upto - 1) { rest.push(framework_names()[upto - 1]) } else { rest }
    }
}

/// What kind of project the profile describes.
pub open spec fn project_type_of(has_tauri: bool, has_ui: bool, has_api: bool, n_testing: int) -> Seq<char> {
    if has_tauri {
        "Desktop Application"@
    } else if has_ui && has_api {
        "Full-Stack Web Application"@
    } else if has_ui {
        "Frontend Application"@
    } else if has_api {
        "Backend API Service"@
    } else if n_testing > 5 {
        "Library/Package"@
    } else {
        "General Application"@
    }
}

fn file_shows(f: &FileInfo, n: usize) -> (r: bool)
    requires
        n < 8,
    ensures
        r == shows_framework(*f, n as int),
{
    let c = chars_of(f.content.as_str());
    if n == 0 {
        contains_str(&c, "from django") || contains_str(&c, "django.")
    } else if n == 1 {
        contains_str(&c, "express()") || contains_str(&c, "from 'express'")
    } else if n == 2 {
        contains_str(&c, "from flask") || contains_str(&c, "Flask(")
    } else if n == 3 {
        contains_str(&c, "from 'next'") || contains_str(&c, "next/")
    } else if n == 4 {
        contains_str(&c, "import React") || contains_str(&c, "from 'react'")
    } else if n == 5 {
        contains_str(&c, "@SpringBoot") || contains_str(&c, "springframework")
    } else if n == 6 {
        let p = chars_of(f.path.as_str());
        contains_str(&c, "tauri::") || contains_str(&p, "tauri")
    } else {
        contains_str(&c, "from 'vue'") || contains_str(&c, "Vue.")
    }
}

fn any_file_shows(files: &Vec<FileInfo>, n: usize) -> (r: bool)
    requires
        n < 8,
    ensures
        r == framework_used(files@, n as int),
{
    let mut i: usize = 0;
    while i < files.len()
        invariant
            n < 8,
            i <= files@.len(),
            forall|j: int| 0 <= j < i ==> !shows_framework(#[trigger] files@[j], n as int),
        decreases files.len() - i,
    {
        if file_shows(&files[i], n) {
            return true;
        }
        i = i + 1;
    }
    false
}

/// The technology profile of `analysis` with keyword lists `keywords`.
pub fn analyze_technology_profile(analysis: &RepoAnalysis, keywords: &ProjectKeywords) -> (p: TechnologyProfile)
    ensures
        views(p.frameworks@) == frameworks_of(analysis.files@, 8),
        p.has_api == (keywords.api_related@.len() > 0),
        p.has_auth == (keywords.auth_related@.len() > 0),
        p.has_database == (keywords.database_related@.len() > 0),
        p.has_testing == (keywords.testing_related@.len() > 0),
        p.has_cicd == (keywords.cicd_related@.len() > 0),
        p.has_ui == (keywords.ui_related@.len() > 0),
        p.project_type@ == project_type_of(
            framework_used(analysis.files@, 6),
            keywords.ui_related@.len() > 0,
            keywords.api_related@.len() > 0,
            keywords.testing_related@.len() as int,
        ),
{
    let names = vec!["Django", "Express", "Flask", "Next.js", "React", "Spring Boot", "Tauri", "Vue"];
    let mut frameworks: Vec<String> = Vec::new();
    let mut has_tauri = false;
    let mut n: usize = 0;
    while n < 8
        invariant
            names@.len() == 8,
            forall|j: int| 0 <= j < 8 ==> names@[j]@ == framework_names()[j],
            n <= 8,
            views(frameworks@) == frameworks_of(analysis.files@, n as int),
            has_tauri == (n > 6 && framework_used(analysis.files@, 6)),
        decreases 8 - n,
    {
        let used = any_file_shows(&analysis.files, n);
        if used {
            let ghost f0 = frameworks@;
            frameworks.push(owned(names[n]));
            proof {
                assert(views(frameworks@) =~= views(f0).push(framework_names()[n as int]));
            }
        }
        if n == 6 {
            has_tauri = used;
        }
        n = n + 1;
    }
    let has_api = keywords.api_related.len() > 0;
    let has_ui = keywords.ui_related.len() > 0;
    let kind = if has_tauri {
        "Desktop Application"
    } else if has_ui && has_api {
        "Full-Stack Web Application"
    } else if has_ui {
        "Frontend Application"
    } else if has_api {
        "Backend API Service"
    } else if keywords.testing_related.len() > 5 {
        "Library/Package"
    } else {
        "General Application"
    };
    TechnologyProfile {
        frameworks,
        has_api,
        has_auth: keywords.auth_related.len() > 0,
        has_database: keywords.database_related.len() > 0,
        has_testing: keywords.testing_related.len() > 0,
        has_cicd: keywords.cicd_related.len() > 0,
        has_ui,
        project_type: owned(kind),
    }
}

/// Whether one of the paths `list` holds one of `terms`.
pub open spec fn any_mentions(list: Seq<String>, terms: Seq<Seq<char>>) -> bool {
    exists|i: int| 0 <= i < list.len() && mentions(#[trigger] list[i]@, terms)
}

/// Number of suggestion rules.
pub open spec fn rule_count() -> int {
    22
}

/// The keyword list rule `r` inspects.
pub open spec fn rule_list(k: ProjectKeywords, r: int) -> Seq<String> {
    if r < 3 { k.api_related@ } else if r < 6 { k.auth_related@ } else if r < 9 { k.database_related@ }
    else if r < 12 { k.testing_related@ } else if r < 15 { k.cicd_related@ } else if r < 18 { k.ui_related@ }
    else if r < 20 { k.performance_related@ } else { k.security_related@ }
}

/// The path terms whose presence makes rule `r` moot.
pub open spec fn rule_terms(r: int) -> Seq<Seq<char>> {
    if r == 0 { seq!["rate"@, "limit"@] } else if r == 1 { seq!["version"@] } else if r == 2 { seq!["doc"@, "swagger"@] }
    else if r == 3 { seq!["2fa"@, "mfa"@] } else if r == 4 { seq!["refresh"@] } else if r == 5 { seq!["rbac"@, "role"@] }
    else if r == 6 { seq!["index"@] } else if r == 7 { seq!["backup"@] } else if r == 8 { seq!["pool"@] }
    else if r == 9 { seq!["e2e"@] } else if r == 10 { seq!["coverage"@] } else if r == 11 { seq!["mock"@] }
    else if r == 12 { seq!["semantic"@] } else if r == 13 { seq!["security"@, "scan"@] } else if r == 14 { seq![] }
    else if r == 15 { seq!["responsive"@] } else if r == 16 { seq!["accessibility"@, "a11y"@] }
    else if r == 17 { seq!["theme"@, "dark"@] } else if r == 18 { seq!["cache"@] } else if r == 19 { seq!["lazy"@] }
    else if r == 20 { seq!["audit"@] } else { seq!["cors"@] }
}

/// When rule `r` is considered at all.
pub open spec fn rule_guard(p: TechnologyProfile, k: ProjectKeywords, r: int) -> bool {
    let perf = k.performance_related@.len() > 0 || p.has_api || p.has_database;
    if r < 3 { p.has_api } else if r < 6 { p.has_auth } else if r < 9 { p.has_database }
    else if r < 12 { p.has_testing } else if r < 14 { p.has_cicd } else if r == 14 { !p.has_cicd }
    else if r < 18 { p.has_ui } else if r == 18 { perf } else if r == 19 { perf && p.has_ui }
    else if r == 20 { true } else { p.has_api }
}

/// The suggestion rule `r` makes.
pub open spec fn rule_text(r: int) -> Seq<char> {
    if r == 0 { "API rate limiting to prevent abuse"@ }
    else if r == 1 { "API versioning strategy for backward compatibility"@ }
    else if r == 2 { "API documentation with OpenAPI/Swagger"@ }
    else if r == 3 { "Two-factor authentication (2FA) implementation"@ }
    else if r == 4 { "Token refresh mechanism for better security"@ }
    else if r == 5 { "Role-based access control (RBAC) system"@ }
    else if r == 6 { "Database indexing strategy for query optimization"@ }
    else if r == 7 { "Automated database backup and recovery system"@ }
    else if r == 8 { "Connection pooling for database performance"@ }
    else if r == 9 { "End-to-end (E2E) testing suite"@ }
    else if r == 10 { "Code coverage reporting and thresholds"@ }
    else if r == 11 { "Mock data generation for testing"@ }
    else if r == 12 { "Semantic versioning automation"@ }
    else if r == 13 { "Security scanning in CI pipeline"@ }
    else if r == 14 { "CI/CD pipeline setup for automated testing and deployment"@ }
    else if r == 15 { "Responsive design improvements for mobile devices"@ }
    else if r == 16 { "Accessibility (a11y) compliance and screen reader support"@ }
    else if r == 17 { "Dark mode theme support"@ }
    else if r == 18 { "Caching strategy for improved performance"@ }
    else if r == 19 { "Lazy loading for better initial load times"@ }
    else if r == 20 { "Security audit logging system"@ }
    else { "CORS configuration for API security"@ }
}

/// Whether rule `r` makes its suggestion: it is considered, and no path of
/// its list already shows what it suggests.
pub open spec fn rule_applies(p: TechnologyProfile, k: ProjectKeywords, r: int) -> bool {
    rule_guard(p, k, r) && !any_mentions(rule_list(k, r), rule_terms(r))
}

/// The suggestions of the first `n` rules, in rule order.
pub open spec fn suggestions_upto(p: TechnologyProfile, k: ProjectKeywords, n: int) -> Seq<Seq<char>>
    decreases n,
{
    if n <= 0 {
        Seq::empty()
    } else {
        let rest = suggestions_upto(p, k, n - 1);
        if rule_applies(p, k, n - 1) { rest.push(rule_text(n - 1)) } else { rest }
    }
}

fn rule_term_list(r: usize) -> (v: Vec<&'static str>)
    requires
        r < 22,
    ensures
        v@.len() == rule_terms(r as int).len(),
        forall|i: int| 0 <= i < v@.len() ==> v@[i]@ == rule_terms(r as int)[i],
{
    if r == 0 { vec!["rate", "limit"] } else if r == 1 { vec!["version"] } else if r == 2 { vec!["doc", "swagger"] }
    else if r == 3 { vec!["2fa", "mfa"] } else if r == 4 { vec!["refresh"] } else if r == 5 { vec!["rbac", "role"] }
    else if r == 6 { vec!["index"] } else if r == 7 { vec!["backup"] } else if r == 8 { vec!["pool"] }
    else if r == 9 { vec!["e2e"] } else if r == 10 { vec!["coverage"] } else if r == 11 { vec!["mock"] }
    else if r == 12 { vec!["semantic"] } else if r == 13 { vec!["security", "scan"] } else if r == 14 { vec![] }
    else if r == 15 { vec!["responsive"] } else if r == 16 { vec!["accessibility", "a11y"] }
    else if r == 17 { vec!["theme", "dark"] } else if r == 18 { vec!["cache"] } else if r == 19 { vec!["lazy"] }
    else if r == 20 { vec!["audit"] } else { vec!["cors"] }
}

fn rule_text_of(r: usize) -> (t: &'static str)
    requires
        r < 22,
    ensures
        t@ == rule_text(r as int),
{
    if r == 0 { "API rate limiting to prevent abuse" }
    else if r == 1 { "API versioning strategy for backward compatibility" }
    else if r == 2 { "API documentation with OpenAPI/Swagger" }
    else if r == 3 { "Two-factor authentication (2FA) implementation" }
    else if r == 4 { "Token refresh mechanism for better security" }
    else if r == 5 { "Role-based access control (RBAC) system" }
    else if r == 6 { "Database indexing strategy for query optimization" }
    else if r == 7 { "Automated database backup and recovery system" }
    else if r == 8 { "Connection pooling for database performance" }
    else if r == 9 { "End-to-end (E2E) testing suite" }
    else if r == 10 { "Code coverage reporting and thresholds" }
    else if r == 11 { "Mock data generation for testing" }
    else if r == 12 { "Semantic versioning automation" }
    else if r == 13 { "Security scanning in CI pipeline" }
    else if r == 14 { "CI/CD pipeline setup for automated testing and deployment" }
    else if r == 15 { "Responsive design improvements for mobile devices" }
    else if r == 16 { "Accessibility (a11y) compliance and screen reader support" }
    else if r == 17 { "Dark mode theme support" }
    else if r == 18 { "Caching strategy for improved performance" }
    else if r == 19 { "Lazy loading for better initial load times" }
    else if r == 20 { "Security audit logging system" }
    else { "CORS configuration for API security" }
}

fn rule_list_of(k: &ProjectKeywords, r: usize) -> (l: &Vec<String>)
    ensures
        l@ == rule_list(*k, r as int),
{
    if r < 3 { &k.api_related } else if r < 6 { &k.auth_related } else if r < 9 { &k.database_related }
    else if r < 12 { &k.testing_related } else if r < 15 { &k.cicd_related } else if r < 18 { &k.ui_related }
    else if r < 20 { &k.performance_related } else { &k.security_related }
}

fn rule_guard_of(p: &TechnologyProfile, k: &ProjectKeywords, r: usize) -> (g: bool)
    ensures
        g == rule_guard(*p, *k, r as int),
{
    let perf = k.performance_related.len() > 0 || p.has_api || p.has_database;
    if r < 3 { p.has_api } else if r < 6 { p.has_auth } else if r < 9 { p.has_database }
    else if r < 12 { p.has_testing } else if r < 14 { p.has_cicd } else if r == 14 { !p.has_cicd }
    else if r < 18 { p.has_ui } else if r == 18 { perf } else if r == 19 { perf && p.has_ui }
    else if r == 20 { true } else { p.has_api }
}

fn mentions_terms(hay: &Vec<char>, terms: &Vec<&'static str>, spec_terms: Ghost<Seq<Seq<char>>>) -> (r: bool)
    requires
        terms@.len() == spec_terms@.len(),
        forall|i: int| 0 <= i < terms@.len() ==> terms@[i]@ == spec_terms@[i],
    ensures
        r == mentions(hay@, spec_terms@),
{
    let mut i: usize = 0;
    while i < terms.len()
        invariant
            terms@.len() == spec_terms@.len(),
            forall|j: int| 0 <= j < terms@.len() ==> terms@[j]@ == spec_terms@[j],
            i <= terms@.len(),
            forall|j: int| 0 <= j < i ==> !seq_contains(hay@, #[trigger] spec_terms@[j]),
        decreases terms.len() - i,
    {
        if contains_str(hay, terms[i]) {
            assert(seq_contains(hay@, spec_terms@[i as int]));
            return true;
        }
        i = i + 1;
    }
    false
}

fn any_path_mentions(list: &Vec<String>, terms: &Vec<&'static str>, spec_terms: Ghost<Seq<Seq<char>>>) -> (r: bool)
    requires
        terms@.len() == spec_terms@.len(),
        forall|i: int| 0 <= i < terms@.len() ==> terms@[i]@ == spec_terms@[i],
    ensures
        r == any_mentions(list@, spec_terms@),
{
    let mut i: usize = 0;
    while i < list.len()
        invariant
            terms@.len() == spec_terms@.len(),
            forall|j: int| 0 <= j < terms@.len() ==> terms@[j]@ == spec_terms@[j],
            i <= list@.len(),
            forall|j: int| 0 <= j < i ==> !mentions(#[trigger] list@[j]@, spec_terms@),
        decreases list.len() - i,
    {
        let cs = chars_of(list[i].as_str());
        if mentions_terms(&cs, terms, spec_terms) {
            return true;
        }
        i = i + 1;
    }
    false
}

/// The improvement suggestions for a project with this profile and these
/// keyword lists, in rule order.
pub fn generate_smart_suggestions(profile: &TechnologyProfile, keywords: &ProjectKeywords) -> (v: Vec<String>)
    ensures
        views(v@) == suggestions_upto(*profile, *keywords, rule_count()),
{
    let mut out: Vec<String> = Vec::new();
    let mut r: usize = 0;
    while r < 22
        invariant
            r <= 22,
            views(out@) == suggestions_upto(*profile, *keywords, r as int),
        decreases 22 - r,
    {
        let applies = if rule_guard_of(profile, keywords, r) {
            let terms = rule_term_list(r);
            !any_path_mentions(rule_list_of(keywords, r), &terms, Ghost(rule_terms(r as int)))
        } else {
            false
        };
        if applies {
            let ghost o0 = out@;
            out.push(owned(rule_text_of(r)));
            proof {
                assert(views(out@) =~= views(o0).push(rule_text(r as int)));
            }
        }
        r = r + 1;
    }
    out
}

} // verus!
