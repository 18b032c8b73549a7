//! Project insights drawn from which files exist: CI platforms, the readme,
//! test files, and the defaults of the generator settings.

use vstd::prelude::*;
use crate::text::{chars_of, contains_str, ends_with, owned, seq_contains, starts_with};

verus! {

/// The CI platforms a project uses, and their configuration files.
#[derive(Debug, Clone)]
pub struct CIInfo {
    pub has_ci: bool,
    pub ci_platforms: Vec<String>,
    pub ci_files: Vec<String>,
}

/// The readme of a project, where it has one.
#[derive(Debug, Clone)]
pub struct ReadmeInfo {
    pub exists: bool,
    pub is_default: bool,
    pub path: Option<String>,
    pub content_preview: Option<String>,
}

/// Which CI configurations exist under a project root, and the file
/// names in `.github/workflows`.
#[derive(Debug, Clone)]
pub struct CiFiles {
    pub github_workflows: bool,
    pub workflow_names: Vec<String>,
    pub gitlab_ci: bool,
    pub travis: bool,
    pub circleci: bool,
    pub jenkins: bool,
    pub azure: bool,
    pub buildkite: bool,
}

/// The views of a list of strings.
pub open spec fn views(v: Seq<String>) -> Seq<Seq<char>> {
    v.map_values(|s: String| s@)
}

/// The platforms `f` shows, in the order GitHub Actions, GitLab CI, Travis
/// CI, CircleCI, Jenkins, Azure Pipelines, Buildkite.
pub open spec fn platforms_of(f: CiFiles) -> Seq<Seq<char>> {
    (if f.github_workflows { seq!["GitHub Actions"@] } else { seq![] })
        + (if f.gitlab_ci { seq!["GitLab CI"@] } else { seq![] })
        + (if f.travis { seq!["Travis CI"@] } else { seq![] })
        + (if f.circleci { seq!["CircleCI"@] } else { seq![] })
        + (if f.jenkins { seq!["Jenkins"@] } else { seq![] })
        + (if f.azure { seq!["Azure Pipelines"@] } else { seq![] })
        + (if f.buildkite { seq!["Buildkite"@] } else { seq![] })
}

/// The workflow files, as paths under the project root.
pub open spec fn workflow_paths(names: Seq<String>) -> Seq<Seq<char>> {
    names.map_values(|n: String| ".github/workflows/"@ + n@)
}

/// The configuration files `f` shows: the workflows, then one per other platform.
pub open spec fn ci_files_of(f: CiFiles) -> Seq<Seq<char>> {
    (if f.github_workflows { workflow_paths(f.workflow_names@) } else { seq![] })
        + (if f.gitlab_ci { seq![".gitlab-ci.yml"@] } else { seq![] })
        + (if f.travis { seq![".travis.yml"@] } else { seq![] })
        + (if f.circleci { seq![".circleci/config.yml"@] } else { seq![] })
        + (if f.jenkins { seq!["Jenkinsfile"@] } else { seq![] })
        + (if f.azure { seq!["azure-pipelines.yml"@] } else { seq![] })
        + (if f.buildkite { seq![".buildkite/"@] } else { seq![] })
}

fn push_if(v: &mut Vec<String>, cond: bool, s: &str)
    ensures
        views(final(v)@) == views(old(v)@) + if cond { seq![s@] } else { Seq::<Seq<char>>::empty() },
{
    let ghost v0 = v@;
    if cond {
        v.push(owned(s));
        assert(views(v@) =~= views(v0) + seq![s@]);
    } else {
        assert(views(v@) =~= views(v0) + Seq::<Seq<char>>::empty());
    }
}

/// The CI information of a project with the configurations `f`.
pub fn get_ci_info(f: &CiFiles) -> (r: CIInfo)
    ensures
        views(r.ci_platforms@) == platforms_of(*f),
        views(r.ci_files@) == ci_files_of(*f),
        r.has_ci == (platforms_of(*f).len() > 0),
{
    let mut platforms: Vec<String> = Vec::new();
    let mut files: Vec<String> = Vec::new();
    proof {
        assert(views(platforms@) =~= Seq::<Seq<char>>::empty());
        assert(views(files@) =~= Seq::<Seq<char>>::empty());
    }
    push_if(&mut platforms, f.github_workflows, "GitHub Actions");
    if f.github_workflows {
        let mut i: usize = 0;
        while i < f.workflow_names.len()
            invariant
                i <= f.workflow_names@.len(),
                views(files@) == workflow_paths(f.workflow_names@.subrange(0, i as int)),
            decreases f.workflow_names.len() - i,
        {
            let mut p = owned(".github/workflows/");
            p.append(f.workflow_names[i].as_str());
            let ghost f0 = files@;
            files.push(p);
            proof {
                assert(views(files@) =~= views(f0).push(p@));
                assert(f.workflow_names@.subrange(0, i + 1) == f.workflow_names@.subrange(0, i as int).push(f.workflow_names@[i as int]));
                assert(workflow_paths(f.workflow_names@.subrange(0, i + 1)) =~= workflow_paths(f.workflow_names@.subrange(0, i as int)).push(p@));
            }
            i = i + 1;
        }
        proof {
            assert(f.workflow_names@.subrange(0, f.workflow_names@.len() as int) == f.workflow_names@);
            assert(views(files@) =~= Seq::<Seq<char>>::empty() + workflow_paths(f.workflow_names@));
        }
    }
    push_if(&mut platforms, f.gitlab_ci, "GitLab CI");
    push_if(&mut files, f.gitlab_ci, ".gitlab-ci.yml");
    push_if(&mut platforms, f.travis, "Travis CI");
    push_if(&mut files, f.travis, ".travis.yml");
    push_if(&mut platforms, f.circleci, "CircleCI");
    push_if(&mut files, f.circleci, ".circleci/config.yml");
    push_if(&mut platforms, f.jenkins, "Jenkins");
    push_if(&mut files, f.jenkins, "Jenkinsfile");
    push_if(&mut platforms, f.azure, "Azure Pipelines");
    push_if(&mut files, f.azure, "azure-pipelines.yml");
    push_if(&mut platforms, f.buildkite, "Buildkite");
    push_if(&mut files, f.buildkite, ".buildkite/");
    proof {
        assert(views(platforms@) =~= platforms_of(*f));
        assert(views(files@) =~= ci_files_of(*f));
    }
    let has_ci = platforms.len() > 0;
    CIInfo { has_ci, ci_platforms: platforms, ci_files: files }
}

/// The readme file names looked for, in order.
pub open spec fn readme_candidates() -> Seq<Seq<char>> {
    seq!["README.md"@, "README.txt"@, "readme.md"@, "readme.txt"@]
}

/// The readme file names looked for, in order.
pub fn readme_candidate_names() -> (r: Vec<&'static str>)
    ensures
        r@.len() == readme_candidates().len(),
        forall|i: int| 0 <= i < r@.len() ==> r@[i]@ == readme_candidates()[i],
{
    vec!["README.md", "README.txt", "readme.md", "readme.txt"]
}

/// A readme that was found, with its text where it could be read.
#[derive(Debug, Clone)]
pub struct ReadmeFile {
    pub path: String,
    pub text: Option<String>,
}

/// The readme information of a project whose first readme found is
/// `found` (the first 200 characters of its text are kept), or which has none.
pub fn readme_info(found: Option<ReadmeFile>) -> (r: ReadmeInfo)
    ensures
        r.exists == found is Some,
        !r.is_default,
        r.path == match found { Some(f) => Some(f.path), None => None::<String> },
        r.content_preview matches Some(p) ==> found matches Some(f) && f.text matches Some(t)
            && p@ == t@.subrange(0, if t@.len() < 200 { t@.len() as int } else { 200 }),
        r.content_preview is None ==> found is None || found->0.text is None,
{
    match found {
        Some(ReadmeFile { path, text }) => {
            let preview = match text {
                Some(t) => {
                    let cs = chars_of(t.as_str());
                    let n = if cs.len() < 200 { cs.len() } else { 200 };
                    Some(crate::text::string_of_range(&cs, 0, n))
                },
                None => None,
            };
            ReadmeInfo { exists: true, is_default: false, path: Some(path), content_preview: preview }
        },
        None => ReadmeInfo { exists: false, is_default: false, path: None, content_preview: None },
    }
}

/// Whether a file named `name` at `path` is a test file: a test or spec
/// suffix of the usual languages, a `test_*.py` name, or a path through a
/// test directory.
pub open spec fn is_test_file_spec(name: Seq<char>, path: Seq<char>) -> bool {
    ends_with(name, ".test.js"@) || ends_with(name, ".test.ts"@) || ends_with(name, ".test.jsx"@)
        || ends_with(name, ".test.tsx"@) || ends_with(name, ".spec.js"@) || ends_with(name, ".spec.ts"@)
        || ends_with(name, ".spec.jsx"@) || ends_with(name, ".spec.tsx"@)
        || (starts_with(name, "test_"@) && ends_with(name, ".py"@)) || ends_with(name, "_test.py"@)
        || ends_with(name, "_test.go"@) || ends_with(name, "_spec.rb"@) || ends_with(name, "_test.rb"@)
        || seq_contains(path, "/test/"@) || seq_contains(path, "/tests/"@) || seq_contains(path, "/__tests__/"@)
        || seq_contains(path, "/spec/"@)
}

/// Whether a file named `name` is source code of a common language.
pub open spec fn is_source_file_spec(name: Seq<char>) -> bool {
    ends_with(name, ".js"@) || ends_with(name, ".ts"@) || ends_with(name, ".jsx"@) || ends_with(name, ".tsx"@)
        || ends_with(name, ".py"@) || ends_with(name, ".rs"@) || ends_with(name, ".go"@) || ends_with(name, ".rb"@)
        || ends_with(name, ".java"@) || ends_with(name, ".cs"@) || ends_with(name, ".php"@) || ends_with(name, ".cpp"@)
        || ends_with(name, ".c"@)
}

fn has_suffix(cs: &Vec<char>, lit: &str) -> (r: bool)
    ensures
        r == ends_with(cs@, lit@),
{
    let suffix = chars_of(lit);
    if suffix.len() > cs.len() {
        return false;
    }
    let off = cs.len() - suffix.len();
    let mut k: usize = 0;
    while k < suffix.len()
        invariant
            suffix@ == lit@,
            off + suffix.len() == cs.len(),
            k <= suffix@.len(),
            forall|j: int| 0 <= j < k ==> cs@[off + j] == suffix@[j],
        decreases suffix.len() - k,
    {
        if cs[off + k] != suffix[k] {
            assert(cs@.subrange(off as int, cs@.len() as int)[k as int] != suffix@[k as int]);
            return false;
        }
        k = k + 1;
    }
    assert(cs@.subrange(off as int, cs@.len() as int) =~= suffix@);
    true
}

fn has_prefix(cs: &Vec<char>, lit: &str) -> (r: bool)
    ensures
        r == starts_with(cs@, lit@),
{
    let prefix = chars_of(lit);
    if prefix.len() > cs.len() {
        return false;
    }
    let mut k: usize = 0;
    while k < prefix.len()
        invariant
            prefix@ == lit@,
            prefix.len() <= cs.len(),
            k <= prefix@.len(),
            forall|j: int| 0 <= j < k ==> cs@[j] == prefix@[j],
        decreases prefix.len() - k,
    {
        if cs[k] != prefix[k] {
            assert(cs@.subrange(0, prefix@.len() as int)[k as int] != prefix@[k as int]);
            return false;
        }
        k = k + 1;
    }
    assert(cs@.subrange(0, prefix@.len() as int) =~= prefix@);
    true
}

/// Whether a file named `name` at `path` is a test file.
pub fn is_test_file(name: &str, path: &str) -> (r: bool)
    ensures
        r == is_test_file_spec(name@, path@),
{
    let n = chars_of(name);
    let p = chars_of(path);
    has_suffix(&n, ".test.js") || has_suffix(&n, ".test.ts") || has_suffix(&n, ".test.jsx")
        || has_suffix(&n, ".test.tsx") || has_suffix(&n, ".spec.js") || has_suffix(&n, ".spec.ts")
        || has_suffix(&n, ".spec.jsx") || has_suffix(&n, ".spec.tsx")
        || (has_prefix(&n, "test_") && has_suffix(&n, ".py")) || has_suffix(&n, "_test.py")
        || has_suffix(&n, "_test.go") || has_suffix(&n, "_spec.rb") || has_suffix(&n, "_test.rb")
        || contains_str(&p, "/test/") || contains_str(&p, "/tests/") || contains_str(&p, "/__tests__/")
        || contains_str(&p, "/spec/")
}

/// Whether a file named `name` is source code of a common language.
pub fn is_source_file(name: &str) -> (r: bool)
    ensures
        r == is_source_file_spec(name@),
{
    let n = chars_of(name);
    has_suffix(&n, ".js") || has_suffix(&n, ".ts") || has_suffix(&n, ".jsx") || has_suffix(&n, ".tsx")
        || has_suffix(&n, ".py") || has_suffix(&n, ".rs") || has_suffix(&n, ".go") || has_suffix(&n, ".rb")
        || has_suffix(&n, ".java") || has_suffix(&n, ".cs") || has_suffix(&n, ".php") || has_suffix(&n, ".cpp")
        || has_suffix(&n, ".c")
}

/// The default token budget of an idea request.
pub fn default_max_tokens_ideas() -> (r: u32)
    ensures
        r == 1500,
{
    1500
}

/// The default token budget of a summary request.
pub fn default_max_tokens_summary() -> (r: u32)
    ensures
        r == 1200,
{
    1200
}

/// Whether idea requests stop after the tenth item by default.
pub fn default_use_stop_ideas() -> (r: bool)
    ensures
        r,
{
    true
}

} // verus!
