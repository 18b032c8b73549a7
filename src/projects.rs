//! The project picker's decisions: which subdirectories are projects, and
//! which common files a project lacks.

use vstd::prelude::*;
use vstd::utf8::encode_utf8;
use crate::response::strip_char;
use crate::text::{chars_of, ends_with, lines, lines_of, owned, split_on, split_text, starts_with, str_eq, string_of_range, trim, trimmed};

verus! {

/// A project directory as the picker lists it.
#[derive(Debug, Clone)]
pub struct ProjectDirectory {
    pub name: String,
    pub path: String,
    pub is_git_repo: bool,
    pub file_count: usize,
    pub description: Option<String>,
    pub is_counting: bool,
}

/// Which package manifests a project has, and which common files it lacks.
#[derive(Debug, Clone)]
pub struct PackageInfo {
    pub has_package_json: bool,
    pub has_cargo_toml: bool,
    pub has_requirements_txt: bool,
    pub has_gemfile: bool,
    pub has_go_mod: bool,
    pub missing_common_files: Vec<String>,
}

/// Which of a project's well-known files exist.
#[derive(Debug, Clone, Copy, PartialEq, Eq)]
pub struct ProjectFiles {
    pub package_json: bool,
    pub cargo_toml: bool,
    pub requirements_txt: bool,
    pub gemfile: bool,
    pub go_mod: bool,
    pub readme_md: bool,
    pub license: bool,
    pub gitignore: bool,
}

/// The common files a project lacks, in the order README.md, LICENSE, .gitignore.
pub open spec fn missing_files(f: ProjectFiles) -> Seq<Seq<char>> {
    let a: Seq<Seq<char>> = if f.readme_md { seq![] } else { seq!["README.md"@] };
    let b: Seq<Seq<char>> = if f.license { seq![] } else { seq!["LICENSE"@] };
    let c: Seq<Seq<char>> = if f.gitignore { seq![] } else { seq![".gitignore"@] };
    a + b + c
}

/// The package information of a project with files `f`.
pub fn get_package_info(f: &ProjectFiles) -> (r: PackageInfo)
    ensures
        r.has_package_json == f.package_json,
        r.has_cargo_toml == f.cargo_toml,
        r.has_requirements_txt == f.requirements_txt,
        r.has_gemfile == f.gemfile,
        r.has_go_mod == f.go_mod,
        r.missing_common_files@.map_values(|s: String| s@) == missing_files(*f),
{
    let mut missing: Vec<String> = Vec::new();
    if !f.readme_md {
        missing.push(owned("README.md"));
    }
    let ghost m1 = missing@;
    if !f.license {
        missing.push(owned("LICENSE"));
    }
    let ghost m2 = missing@;
    if !f.gitignore {
        missing.push(owned(".gitignore"));
    }
    proof {
        let v = |s: String| s@;
        assert(missing@.map_values(v) =~= missing_files(*f));
    }
    PackageInfo {
        has_package_json: f.package_json,
        has_cargo_toml: f.cargo_toml,
        has_requirements_txt: f.requirements_txt,
        has_gemfile: f.gemfile,
        has_go_mod: f.go_mod,
        missing_common_files: missing,
    }
}

/// Directory names that the picker never lists.
pub open spec fn skipped_dir_names() -> Seq<Seq<char>> {
    seq!["node_modules"@, "target"@, "build"@, "dist"@, "vendor"@, "__pycache__"@]
}

/// Whether the picker considers a directory named `name`: it is not hidden
/// and not one of the heavy build or dependency directories.
pub open spec fn candidate_dir_name(name: Seq<char>) -> bool {
    !(name.len() > 0 && name[0] == '.') && !skipped_dir_names().contains(name)
}

/// Whether the picker considers a directory named `name`.
pub fn is_candidate_dir_name(name: &str) -> (r: bool)
    ensures
        r == candidate_dir_name(name@),
{
    let cs = chars_of(name);
    if cs.len() > 0 && cs[0] == '.' {
        return false;
    }
    let skipped = vec!["node_modules", "target", "build", "dist", "vendor", "__pycache__"];
    let ghost names = skipped_dir_names();
    let mut i: usize = 0;
    while i < skipped.len()
        invariant
            names == skipped_dir_names(),
            skipped@.len() == names.len(),
            forall|j: int| 0 <= j < skipped@.len() ==> skipped@[j]@ == names[j],
            i <= skipped@.len(),
            forall|j: int| 0 <= j < i ==> names[j] != name@,
        decreases skipped.len() - i,
    {
        if str_eq(skipped[i], name) {
            assert(names[i as int] == name@);
            assert(names.contains(name@));
            return false;
        }
        i = i + 1;
    }
    true
}

/// File names whose presence makes a directory a project.
pub open spec fn project_indicators() -> Seq<Seq<char>> {
    seq![
        "package.json"@, "Cargo.toml"@, "pom.xml"@, "build.gradle"@, "requirements.txt"@, "Gemfile"@,
        "go.mod"@, "composer.json"@, "project.clj"@, "mix.exs"@, "pubspec.yaml"@, "CMakeLists.txt"@,
        "Makefile"@, "README.md"@, "README.txt"@,
    ]
}

/// Whether an entry named `n` marks its directory as a project.
pub open spec fn marks_project(n: Seq<char>) -> bool {
    project_indicators().contains(n) || ends_with(n, ".csproj"@)
}

/// Whether a directory holding entries named `names` is a project: one of
/// them is a known manifest or readme, or a C# project file.
pub fn is_project_directory(names: &Vec<String>) -> (r: bool)
    ensures
        r == exists|i: int| 0 <= i < names@.len() && marks_project(#[trigger] names@[i]@),
{
    let indicators = vec![
        "package.json", "Cargo.toml", "pom.xml", "build.gradle", "requirements.txt", "Gemfile", "go.mod",
        "composer.json", "project.clj", "mix.exs", "pubspec.yaml", "CMakeLists.txt", "Makefile",
        "README.md", "README.txt",
    ];
    let ghost inds = project_indicators();
    let suffix = chars_of(".csproj");
    let mut i: usize = 0;
    while i < names.len()
        invariant
            inds == project_indicators(),
            indicators@.len() == inds.len(),
            forall|j: int| 0 <= j < indicators@.len() ==> indicators@[j]@ == inds[j],
            suffix@ == ".csproj"@,
            i <= names@.len(),
            forall|j: int| 0 <= j < i ==> !marks_project(#[trigger] names@[j]@),
        decreases names.len() - i,
    {
        let n = names[i].as_str();
        let mut k: usize = 0;
        while k < indicators.len()
            invariant
                inds == project_indicators(),
            indicators@.len() == inds.len(),
                forall|j: int| 0 <= j < indicators@.len() ==> indicators@[j]@ == inds[j],
                i < names@.len(),
                n@ == names@[i as int]@,
                k <= indicators@.len(),
                forall|j: int| 0 <= j < k ==> inds[j] != n@,
            decreases indicators.len() - k,
        {
            if str_eq(indicators[k], n) {
                assert(inds[k as int] == n@);
                assert(inds.contains(n@));
                assert(marks_project(names@[i as int]@));
                return true;
            }
            k = k + 1;
        }
        proof {
            assert(!inds.contains(n@));
        }
        let cs = chars_of(n);
        if cs.len() >= suffix.len() {
            let off = cs.len() - suffix.len();
            let mut same = true;
            let mut t: usize = 0;
            while t < suffix.len()
                invariant
                    off + suffix.len() == cs.len(),
                    t <= suffix@.len(),
                    same == forall|j: int| 0 <= j < t ==> cs@[off + j] == suffix@[j],
                decreases suffix.len() - t,
            {
                if cs[off + t] != suffix[t] {
                    same = false;
                }
                t = t + 1;
            }
            if same {
                assert(cs@.subrange(off as int, cs@.len() as int) =~= suffix@);
                assert(marks_project(names@[i as int]@));
                return true;
            }
            proof {
                let j = choose|j: int| 0 <= j < suffix@.len() && cs@[off + j] != suffix@[j];
                assert(cs@.subrange(off as int, cs@.len() as int)[j] != suffix@[j]);
            }
        }
        i = i + 1;
    }
    false
}

/// `s` without leading and trailing double quotes.
pub open spec fn unquote(s: Seq<char>) -> Seq<char> {
    strip_char_end(strip_char(s, '"'), '"')
}

/// `s` without its trailing run of `c`.
pub open spec fn strip_char_end(s: Seq<char>, c: char) -> Seq<char>
    decreases s.len(),
{
    if s.len() > 0 && s.last() == c { strip_char_end(s.drop_last(), c) } else { s }
}

/// Index of the first line of `ls` that starts with `description`, or -1.
pub open spec fn description_line(ls: Seq<Seq<char>>) -> int
    decreases ls.len(),
{
    if ls.len() == 0 {
        -1
    } else if starts_with(ls[0], "description"@) {
        0
    } else if description_line(ls.drop_first()) < 0 {
        -1
    } else {
        description_line(ls.drop_first()) + 1
    }
}

/// The description a `Cargo.toml` text gives on its first `description`
/// line: what follows the first `=`, trimmed and unquoted.
pub open spec fn cargo_description(text: Seq<char>) -> Option<Seq<char>> {
    let ls = lines_of(text);
    let i = description_line(ls);
    if i < 0 || i >= ls.len() {
        None
    } else {
        let parts = split_on(ls[i], "="@);
        if parts.len() >= 2 { Some(unquote(trim(parts[1]))) } else { None }
    }
}

/// The title a readme's first line gives: trimmed, under 200 bytes, with
/// its heading marks removed, where something is left.
pub open spec fn readme_title(text: Seq<char>) -> Option<Seq<char>> {
    let ls = lines_of(text);
    let first = if ls.len() > 0 { ls[0] } else { Seq::<char>::empty() };
    let t = trim(first);
    if t.len() > 0 && (encode_utf8(t).len() as usize) < 200 {
        let c = trim(strip_char(t, '#'));
        if c.len() > 0 { Some(c) } else { None }
    } else {
        None
    }
}

/// The first readme, in order, whose first line gives a title.
pub open spec fn first_title(readmes: Seq<String>) -> Option<Seq<char>>
    decreases readmes.len(),
{
    if readmes.len() == 0 {
        None
    } else if readme_title(readmes[0]@) is Some {
        readme_title(readmes[0]@)
    } else {
        first_title(readmes.drop_first())
    }
}

/// A project's description: the one its `package.json` gives, else the one
/// of its `Cargo.toml`, else the title of its first readme that has one.
pub open spec fn description_of(package: Option<String>, cargo: Option<String>, readmes: Seq<String>) -> Option<Seq<char>> {
    match package {
        Some(d) => Some(d@),
        None => {
            let c = match cargo { Some(t) => cargo_description(t@), None => None };
            if c is Some { c } else { first_title(readmes) }
        },
    }
}

fn strip_trailing(s: &str, c: char) -> (r: String)
    ensures
        r@ == strip_char_end(s@, c),
{
    let cs = chars_of(s);
    let mut b: usize = cs.len();
    proof {
        assert(cs@.subrange(0, cs@.len() as int) == cs@);
    }
    while b > 0 && cs[b - 1] == c
        invariant
            b <= cs@.len(),
            strip_char_end(s@, c) == strip_char_end(cs@.subrange(0, b as int), c),
        decreases b,
    {
        assert(cs@.subrange(0, b as int).drop_last() == cs@.subrange(0, b - 1));
        b = b - 1;
    }
    string_of_range(&cs, 0, b)
}

fn strip_leading(s: &str, c: char) -> (r: String)
    ensures
        r@ == strip_char(s@, c),
{
    let cs = chars_of(s);
    let mut a: usize = 0;
    proof {
        assert(cs@.subrange(0, cs@.len() as int) == cs@);
    }
    while a < cs.len() && cs[a] == c
        invariant
            a <= cs@.len(),
            strip_char(s@, c) == strip_char(cs@.subrange(a as int, cs@.len() as int), c),
        decreases cs.len() - a,
    {
        assert(cs@.subrange(a as int, cs@.len() as int).drop_first() == cs@.subrange(a + 1, cs@.len() as int));
        a = a + 1;
    }
    string_of_range(&cs, a, cs.len())
}

fn begins_with(s: &str, lit: &str) -> (r: bool)
    ensures
        r == starts_with(s@, lit@),
{
    let cs = chars_of(s);
    let p = chars_of(lit);
    if p.len() > cs.len() {
        return false;
    }
    let mut k: usize = 0;
    while k < p.len()
        invariant
            p@ == lit@,
            cs@ == s@,
            p.len() <= cs.len(),
            k <= p@.len(),
            forall|j: int| 0 <= j < k ==> cs@[j] == p@[j],
        decreases p.len() - k,
    {
        if cs[k] != p[k] {
            assert(cs@.subrange(0, p@.len() as int)[k as int] != p@[k as int]);
            return false;
        }
        k = k + 1;
    }
    assert(cs@.subrange(0, p@.len() as int) =~= p@);
    true
}

/// The description a `Cargo.toml` text gives, if any.
pub fn cargo_description_of(text: &str) -> (r: Option<String>)
    ensures
        r matches Some(d) ==> cargo_description(text@) == Some(d@),
        r is None ==> cargo_description(text@) is None,
{
    let ls = lines(text);
    let ghost lv = ls@.map_values(|x: String| x@);
    let mut i: usize = 0;
    while i < ls.len()
        invariant
            lv == ls@.map_values(|x: String| x@),
            lv == lines_of(text@),
            i <= ls@.len(),
            forall|j: int| 0 <= j < i ==> !starts_with(#[trigger] lv[j], "description"@),
        decreases ls.len() - i,
    {
        if begins_with(ls[i].as_str(), "description") {
            proof {
                lemma_description_line(lv, i as int);
            }
            proof {
                reveal_strlit("=");
            }
            let parts = split_text(ls[i].as_str(), "=");
            if parts.len() >= 2 {
                let t = trimmed(parts[1].as_str());
                let a = strip_leading(t.as_str(), '"');
                let b = strip_trailing(a.as_str(), '"');
                proof {
                    assert(parts@.map_values(|x: String| x@)[1] == parts@[1]@);
                }
                return Some(b);
            }
            return None;
        }
        i = i + 1;
    }
    proof {
        lemma_description_line(lv, lv.len() as int);
    }
    None
}

proof fn lemma_description_line(ls: Seq<Seq<char>>, k: int)
    requires
        0 <= k <= ls.len(),
        k < ls.len() ==> starts_with(ls[k], "description"@),
        forall|j: int| 0 <= j < k ==> !starts_with(#[trigger] ls[j], "description"@),
    ensures
        description_line(ls) == if k < ls.len() { k } else { -1 },
    decreases ls.len(),
{
    if ls.len() > 0 && k > 0 {
        assert forall|j: int| 0 <= j < k - 1 implies !starts_with(#[trigger] ls.drop_first()[j], "description"@) by {
            assert(ls.drop_first()[j] == ls[j + 1]);
        }
        lemma_description_line(ls.drop_first(), k - 1);
    }
}

/// The title a readme text gives, if any.
pub fn readme_title_of(text: &str) -> (r: Option<String>)
    ensures
        r matches Some(d) ==> readme_title(text@) == Some(d@),
        r is None ==> readme_title(text@) is None,
{
    let ls = lines(text);
    let first = if ls.len() > 0 { ls[0].clone() } else { String::new() };
    proof {
        if ls@.len() > 0 {
            assert(ls@.map_values(|x: String| x@)[0] == ls@[0]@);
        }
    }
    let t = trimmed(first.as_str());
    if !t.as_str().is_empty() && t.as_str().len() < 200 {
        let a = strip_leading(t.as_str(), '#');
        let c = trimmed(a.as_str());
        if !c.as_str().is_empty() {
            return Some(c);
        }
    }
    None
}

/// A project's description, from the `package.json` description, the
/// `Cargo.toml` text and the readme texts found (in the order looked for).
pub fn project_description(package: Option<String>, cargo: Option<String>, readmes: &Vec<String>) -> (r: Option<String>)
    ensures
        r matches Some(d) ==> description_of(package, cargo, readmes@) == Some(d@),
        r is None ==> description_of(package, cargo, readmes@) is None,
{
    let ghost pkg0 = package;
    let ghost cargo0 = cargo;
    match &package {
        Some(d) => {
            return Some(d.clone());
        },
        None => {},
    }
    match &cargo {
        Some(t) => {
            match cargo_description_of(t.as_str()) {
                Some(d) => {
                    return Some(d);
                },
                None => {},
            }
        },
        None => {},
    }
    let mut i: usize = 0;
    proof {
        assert(readmes@.subrange(0, readmes@.len() as int) == readmes@);
    }
    while i < readmes.len()
        invariant
            pkg0 == package,
            cargo0 == cargo,
            i <= readmes@.len(),
            description_of(pkg0, cargo0, readmes@) == first_title(readmes@.subrange(i as int, readmes@.len() as int)),
        decreases readmes.len() - i,
    {
        proof {
            let rest = readmes@.subrange(i as int, readmes@.len() as int);
            assert(rest[0] == readmes@[i as int]);
            assert(rest.drop_first() == readmes@.subrange(i + 1, readmes@.len() as int));
        }
        match readme_title_of(readmes[i].as_str()) {
            Some(d) => {
                proof {
                    let rest = readmes@.subrange(i as int, readmes@.len() as int);
                    assert(rest.len() > 0);
                    assert(readme_title(rest[0]@) == Some(d@));
                    assert(first_title(rest) == Some(d@));
                    assert(description_of(pkg0, cargo0, readmes@) == Some(d@));
                }
                return Some(d);
            },
            None => {},
        }
        i = i + 1;
    }
    proof {
        assert(readmes@.subrange(i as int, readmes@.len() as int).len() == 0);
    }
    None
}

} // verus!
