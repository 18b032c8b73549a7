//! File names, extensions, language detection and the file filter.

use vstd::prelude::*;
use crate::text::{chars_of, contains_str, owned, seq_contains, str_eq, string_of_range};

verus! {

/// Index of the last `c` in `s`, or -1 when there is none.
pub open spec fn last_index_of(s: Seq<char>, c: char) -> int
    decreases s.len(),
{
    if s.len() == 0 {
        -1
    } else if s.last() == c {
        s.len() - 1
    } else {
        last_index_of(s.drop_last(), c)
    }
}

/// The final `/`-separated segment of a path.
pub open spec fn file_name_of(p: Seq<char>) -> Seq<char> {
    p.subrange(last_index_of(p, '/') + 1, p.len() as int)
}

/// The directory part of a path: everything before the last `/`; the root
/// `/` for a file directly under it, and the empty path for a bare name. The
/// empty path and the root itself have none.
pub open spec fn parent_of(p: Seq<char>) -> Option<Seq<char>> {
    if p.len() == 0 || p == "/"@ {
        None
    } else if last_index_of(p, '/') < 0 {
        Some(Seq::empty())
    } else if last_index_of(p, '/') == 0 {
        Some("/"@)
    } else {
        Some(p.subrange(0, last_index_of(p, '/')))
    }
}

/// The extension of a path: what follows the last dot of its file name, where
/// that dot is not the name's first character (`.gitignore` has none), and
/// the name is not `..`.
pub open spec fn extension_of(p: Seq<char>) -> Option<Seq<char>> {
    let n = file_name_of(p);
    let d = last_index_of(n, '.');
    if n == ".."@ || d <= 0 {
        None
    } else {
        Some(n.subrange(d + 1, n.len() as int))
    }
}

/// The language named by an extension; `Unknown` where none is.
pub open spec fn language_of_extension(e: Seq<char>) -> Seq<char> {
    if e == "rs"@ {
        "Rust"@
    } else if e == "js"@ || e == "jsx"@ {
        "JavaScript"@
    } else if e == "ts"@ || e == "tsx"@ {
        "TypeScript"@
    } else if e == "py"@ {
        "Python"@
    } else if e == "java"@ {
        "Java"@
    } else if e == "cpp"@ || e == "cc"@ || e == "cxx"@ {
        "C++"@
    } else if e == "c"@ {
        "C"@
    } else if e == "go"@ {
        "Go"@
    } else if e == "php"@ {
        "PHP"@
    } else if e == "rb"@ {
        "Ruby"@
    } else if e == "cs"@ {
        "C#"@
    } else if e == "swift"@ {
        "Swift"@
    } else if e == "kt"@ {
        "Kotlin"@
    } else if e == "html"@ {
        "HTML"@
    } else if e == "css"@ {
        "CSS"@
    } else if e == "scss"@ || e == "sass"@ {
        "SCSS"@
    } else if e == "json"@ {
        "JSON"@
    } else if e == "xml"@ {
        "XML"@
    } else if e == "yml"@ || e == "yaml"@ {
        "YAML"@
    } else if e == "toml"@ {
        "TOML"@
    } else if e == "md"@ {
        "Markdown"@
    } else {
        "Unknown"@
    }
}

/// The language of the file at path `p`.
pub open spec fn language_of_path(p: Seq<char>) -> Seq<char> {
    match extension_of(p) {
        Some(e) => language_of_extension(e),
        None => "Unknown"@,
    }
}

/// Directory names whose contents are never analysed.
pub open spec fn denied_dirs() -> Seq<Seq<char>> {
    seq![
        "node_modules"@,
        "target"@,
        "build"@,
        "dist"@,
        ".git"@,
        ".svn"@,
        "vendor"@,
        "__pycache__"@,
    ]
}

/// Binary and media extensions that are never analysed.
pub open spec fn denied_extensions() -> Seq<Seq<char>> {
    seq![
        "png"@, "jpg"@, "jpeg"@, "gif"@, "svg"@, "ico"@, "woff"@, "woff2"@, "ttf"@, "eot"@,
        "pdf"@, "zip"@, "tar"@, "gz"@,
    ]
}

/// The extensions that the file counter skips: the denied ones and native libraries.
pub open spec fn uncounted_extensions() -> Seq<Seq<char>> {
    denied_extensions() + seq!["exe"@, "dll"@, "so"@, "dylib"@]
}

/// Whether `p` holds directory `d` as a whole segment between two separators.
pub open spec fn has_dir_segment(p: Seq<char>, d: Seq<char>) -> bool {
    seq_contains(p, seq!['/'] + d + seq!['/']) || seq_contains(p, seq!['\\'] + d + seq!['\\'])
}

/// Whether `p` lies under one of the denied directories.
pub open spec fn in_denied_dir(p: Seq<char>) -> bool {
    exists|i: int| 0 <= i < denied_dirs().len() && has_dir_segment(p, #[trigger] denied_dirs()[i])
}

/// Whether `p` passes the filter with the given extension deny list.
pub open spec fn passes_filter(p: Seq<char>, exts: Seq<Seq<char>>) -> bool {
    !in_denied_dir(p) && match extension_of(p) {
        Some(e) => !exts.contains(e),
        None => true,
    }
}

/// Whether a scan analyses the file at `p`.
pub open spec fn analyzable(p: Seq<char>) -> bool {
    passes_filter(p, denied_extensions())
}

/// Index of the last `c` in `cs`, or `cs.len()` when there is none.
fn find_last(cs: &Vec<char>, c: char) -> (r: usize)
    ensures
        r <= cs@.len(),
        r == cs@.len() <==> last_index_of(cs@, c) == -1,
        r < cs@.len() ==> r == last_index_of(cs@, c),
{
    let mut i: usize = cs.len();
    assert(cs@.subrange(0, cs@.len() as int) == cs@);
    while i > 0
        invariant
            i <= cs@.len(),
            last_index_of(cs@, c) == last_index_of(cs@.subrange(0, i as int), c),
        decreases i,
    {
        assert(cs@.subrange(0, i - 1) == cs@.subrange(0, i as int).drop_last());
        if cs[i - 1] == c {
            return i - 1;
        }
        i = i - 1;
    }
    assert(cs@.subrange(0, cs@.len() as int) == cs@);
    cs.len()
}

proof fn lemma_last_index_bounds(s: Seq<char>, c: char)
    ensures
        -1 <= last_index_of(s, c) < s.len(),
        last_index_of(s, c) >= 0 ==> s[last_index_of(s, c)] == c,
    decreases s.len(),
{
    if s.len() > 0 && s.last() != c {
        lemma_last_index_bounds(s.drop_last(), c);
    }
}

/// The file name of a path: its final `/`-separated segment.
pub fn file_name(path: &str) -> (r: String)
    ensures
        r@ == file_name_of(path@),
{
    let cs = chars_of(path);
    let k = find_last(&cs, '/');
    proof {
        lemma_last_index_bounds(cs@, '/');
    }
    if k == cs.len() {
        string_of_range(&cs, 0, cs.len())
    } else {
        string_of_range(&cs, k + 1, cs.len())
    }
}

/// The directory part of a path, if it has one.
pub fn parent_dir(path: &str) -> (r: Option<String>)
    ensures
        r matches Some(s) ==> parent_of(path@) == Some(s@),
        r is None ==> parent_of(path@) is None,
{
    if path.is_empty() || str_eq(path, "/") {
        return None;
    }
    let cs = chars_of(path);
    let k = find_last(&cs, '/');
    proof {
        lemma_last_index_bounds(cs@, '/');
    }
    if k == cs.len() {
        Some(String::new())
    } else if k == 0 {
        Some(owned("/"))
    } else {
        Some(string_of_range(&cs, 0, k))
    }
}

/// The extension of a path, if it has one.
pub fn extension(path: &str) -> (r: Option<String>)
    ensures
        r matches Some(s) ==> extension_of(path@) == Some(s@),
        r is None ==> extension_of(path@) is None,
{
    let name = file_name(path);
    if str_eq(name.as_str(), "..") {
        return None;
    }
    let cs = chars_of(name.as_str());
    let d = find_last(&cs, '.');
    proof {
        lemma_last_index_bounds(cs@, '.');
    }
    if d == cs.len() || d == 0 {
        None
    } else {
        Some(string_of_range(&cs, d + 1, cs.len()))
    }
}

/// The language named by an extension.
pub fn language_for_extension(e: &str) -> (r: String)
    ensures
        r@ == language_of_extension(e@),
{
    let name = if str_eq(e, "rs") {
        "Rust"
    } else if str_eq(e, "js") || str_eq(e, "jsx") {
        "JavaScript"
    } else if str_eq(e, "ts") || str_eq(e, "tsx") {
        "TypeScript"
    } else if str_eq(e, "py") {
        "Python"
    } else if str_eq(e, "java") {
        "Java"
    } else if str_eq(e, "cpp") || str_eq(e, "cc") || str_eq(e, "cxx") {
        "C++"
    } else if str_eq(e, "c") {
        "C"
    } else if str_eq(e, "go") {
        "Go"
    } else if str_eq(e, "php") {
        "PHP"
    } else if str_eq(e, "rb") {
        "Ruby"
    } else if str_eq(e, "cs") {
        "C#"
    } else if str_eq(e, "swift") {
        "Swift"
    } else if str_eq(e, "kt") {
        "Kotlin"
    } else if str_eq(e, "html") {
        "HTML"
    } else if str_eq(e, "css") {
        "CSS"
    } else if str_eq(e, "scss") || str_eq(e, "sass") {
        "SCSS"
    } else if str_eq(e, "json") {
        "JSON"
    } else if str_eq(e, "xml") {
        "XML"
    } else if str_eq(e, "yml") || str_eq(e, "yaml") {
        "YAML"
    } else if str_eq(e, "toml") {
        "TOML"
    } else if str_eq(e, "md") {
        "Markdown"
    } else {
        "Unknown"
    };
    owned(name)
}

/// The language of the file at `path`, from its extension; `Unknown` where
/// the extension names none.
pub fn get_language_from_extension(path: &str) -> (r: String)
    ensures
        r@ == language_of_path(path@),
{
    match extension(path) {
        Some(e) => language_for_extension(e.as_str()),
        None => owned("Unknown"),
    }
}

/// The names of the denied directories.
fn denied_dir_names() -> (r: Vec<&'static str>)
    ensures
        r@.len() == denied_dirs().len(),
        forall|i: int| 0 <= i < r@.len() ==> r@[i]@ == denied_dirs()[i],
{
    vec!["node_modules", "target", "build", "dist", ".git", ".svn", "vendor", "__pycache__"]
}

/// The denied extensions.
fn denied_extension_names() -> (r: Vec<&'static str>)
    ensures
        r@.len() == denied_extensions().len(),
        forall|i: int| 0 <= i < r@.len() ==> r@[i]@ == denied_extensions()[i],
{
    vec![
        "png", "jpg", "jpeg", "gif", "svg", "ico", "woff", "woff2", "ttf", "eot", "pdf", "zip",
        "tar", "gz",
    ]
}

/// The extensions that the file counter skips.
fn uncounted_extension_names() -> (r: Vec<&'static str>)
    ensures
        r@.len() == uncounted_extensions().len(),
        forall|i: int| 0 <= i < r@.len() ==> r@[i]@ == uncounted_extensions()[i],
{
    let mut v = denied_extension_names();
    v.push("exe");
    v.push("dll");
    v.push("so");
    v.push("dylib");
    v
}

/// Whether `cs` holds `/d/` or `\d\` for one of the denied directories `d`.
fn under_denied_dir(cs: &Vec<char>) -> (r: bool)
    ensures
        r == in_denied_dir(cs@),
{
    let dirs = denied_dir_names();
    let mut i: usize = 0;
    while i < dirs.len()
        invariant
            dirs@.len() == denied_dirs().len(),
            forall|j: int| 0 <= j < dirs@.len() ==> dirs@[j]@ == denied_dirs()[j],
            i <= dirs@.len(),
            forall|j: int| 0 <= j < i ==> !has_dir_segment(cs@, #[trigger] denied_dirs()[j]),
        decreases dirs.len() - i,
    {
        let d = dirs[i];
        let mut fwd = owned("/");
        fwd.append(d);
        fwd.append("/");
        let mut back = owned("\\");
        back.append(d);
        back.append("\\");
        proof {
            reveal_strlit("/");
            reveal_strlit("\\");
            assert(fwd@ == seq!['/'] + denied_dirs()[i as int] + seq!['/']);
            assert(back@ == seq!['\\'] + denied_dirs()[i as int] + seq!['\\']);
        }
        if contains_str(cs, fwd.as_str()) || contains_str(cs, back.as_str()) {
            return true;
        }
        i = i + 1;
    }
    false
}

/// Whether `e` is one of `names`.
fn listed(names: &Vec<&'static str>, e: &str, spec_names: Ghost<Seq<Seq<char>>>) -> (r: bool)
    requires
        names@.len() == spec_names@.len(),
        forall|i: int| 0 <= i < names@.len() ==> names@[i]@ == spec_names@[i],
    ensures
        r == spec_names@.contains(e@),
{
    let mut i: usize = 0;
    while i < names.len()
        invariant
            names@.len() == spec_names@.len(),
            forall|j: int| 0 <= j < names@.len() ==> names@[j]@ == spec_names@[j],
            i <= names@.len(),
            forall|j: int| 0 <= j < i ==> spec_names@[j] != e@,
        decreases names.len() - i,
    {
        if str_eq(names[i], e) {
            assert(spec_names@[i as int] == e@);
            return true;
        }
        i = i + 1;
    }
    false
}

fn filter_with(path: &str, exts: &Vec<&'static str>, spec_exts: Ghost<Seq<Seq<char>>>) -> (r: bool)
    requires
        exts@.len() == spec_exts@.len(),
        forall|i: int| 0 <= i < exts@.len() ==> exts@[i]@ == spec_exts@[i],
    ensures
        r == passes_filter(path@, spec_exts@),
{
    let cs = chars_of(path);
    if under_denied_dir(&cs) {
        return false;
    }
    match extension(path) {
        Some(e) => !listed(exts, e.as_str(), spec_exts),
        None => true,
    }
}

/// Whether a scan analyses the file at `path`: it lies under no denied
/// directory and its extension is not a denied one.
pub fn should_analyze_file(path: &str) -> (r: bool)
    ensures
        r == analyzable(path@),
{
    let exts = denied_extension_names();
    filter_with(path, &exts, Ghost(denied_extensions()))
}

/// Whether the file counter counts the file at `path`: as
/// `should_analyze_file`, with native libraries and executables skipped too.
pub fn should_count_file(path: &str) -> (r: bool)
    ensures
        r == passes_filter(path@, uncounted_extensions()),
{
    let exts = uncounted_extension_names();
    filter_with(path, &exts, Ghost(uncounted_extensions()))
}

} // verus!
