//! The walker's fixed override rules, applied whatever the ignore files
//! say, and the per-root cache of the rule sets built from them.

use vstd::prelude::*;
use crate::strmap::StrMap;
use crate::text::owned;

verus! {

/// Heavy directories that the walker never enters.
pub open spec fn heavy_dirs() -> Seq<Seq<char>> {
    seq![
        "node_modules"@, ".git"@, "dist"@, "build"@, "target"@, "vendor"@, "__pycache__"@, ".next"@,
        ".svelte-kit"@, ".venv"@, "venv"@, ".pnpm-store"@, ".yardoc"@, ".bundle"@, ".terraform"@, ".m2"@,
        ".cache"@, "coverage"@, "Pods"@, "DerivedData"@, "tmp"@,
    ]
}

/// Binary and media extensions that the walker never yields.
pub open spec fn skipped_extensions() -> Seq<Seq<char>> {
    seq![
        "png"@, "jpg"@, "jpeg"@, "gif"@, "svg"@, "ico"@, "webp"@, "bmp"@, "tiff"@, "woff"@, "woff2"@, "ttf"@,
        "eot"@, "pdf"@, "zip"@, "tar"@, "gz"@, "bz2"@, "xz"@, "7z"@, "mp3"@, "mp4"@, "mkv"@, "mov"@, "avi"@,
        "wav"@, "flac"@, "wasm"@,
    ]
}

/// The override globs, in gitignore syntax: each heavy directory at any
/// depth, then each skipped extension, all as exclusions.
pub open spec fn override_globs() -> Seq<Seq<char>> {
    heavy_dirs().map_values(|d: Seq<char>| "!**/"@ + d + "/**"@)
        + skipped_extensions().map_values(|e: Seq<char>| "!**/*."@ + e)
}

fn heavy_dir_names() -> (r: Vec<&'static str>)
    ensures
        r@.len() == heavy_dirs().len(),
        forall|i: int| 0 <= i < r@.len() ==> r@[i]@ == heavy_dirs()[i],
{
    vec![
        "node_modules", ".git", "dist", "build", "target", "vendor", "__pycache__", ".next", ".svelte-kit",
        ".venv", "venv", ".pnpm-store", ".yardoc", ".bundle", ".terraform", ".m2", ".cache", "coverage", "Pods",
        "DerivedData", "tmp",
    ]
}

fn skipped_extension_names() -> (r: Vec<&'static str>)
    ensures
        r@.len() == skipped_extensions().len(),
        forall|i: int| 0 <= i < r@.len() ==> r@[i]@ == skipped_extensions()[i],
{
    vec![
        "png", "jpg", "jpeg", "gif", "svg", "ico", "webp", "bmp", "tiff", "woff", "woff2", "ttf", "eot", "pdf",
        "zip", "tar", "gz", "bz2", "xz", "7z", "mp3", "mp4", "mkv", "mov", "avi", "wav", "flac", "wasm",
    ]
}

/// The views of a list of strings.
pub open spec fn views(v: Seq<String>) -> Seq<Seq<char>> {
    v.map_values(|s: String| s@)
}

/// The override globs.
pub fn override_globs_list() -> (r: Vec<String>)
    ensures
        views(r@) == override_globs(),
{
    let dirs = heavy_dir_names();
    let exts = skipped_extension_names();
    let ghost hd = heavy_dirs();
    let ghost se = skipped_extensions();
    let ghost dir_globs = hd.map_values(|d: Seq<char>| "!**/"@ + d + "/**"@);
    let ghost ext_globs = se.map_values(|e: Seq<char>| "!**/*."@ + e);
    let mut out: Vec<String> = Vec::new();
    let mut i: usize = 0;
    while i < dirs.len()
        invariant
            hd == heavy_dirs(),
            dir_globs == hd.map_values(|d: Seq<char>| "!**/"@ + d + "/**"@),
            dirs@.len() == hd.len(),
            forall|j: int| 0 <= j < dirs@.len() ==> dirs@[j]@ == hd[j],
            i <= dirs@.len(),
            views(out@) == dir_globs.subrange(0, i as int),
        decreases dirs.len() - i,
    {
        let mut g = owned("!**/");
        g.append(dirs[i]);
        g.append("/**");
        let ghost o0 = out@;
        out.push(g);
        proof {
            assert(views(out@) =~= views(o0).push(g@));
            assert(dir_globs.subrange(0, i + 1) =~= dir_globs.subrange(0, i as int).push(dir_globs[i as int]));
        }
        i = i + 1;
    }
    let mut k: usize = 0;
    proof {
        assert(dir_globs.subrange(0, dir_globs.len() as int) == dir_globs);
    }
    while k < exts.len()
        invariant
            se == skipped_extensions(),
            ext_globs == se.map_values(|e: Seq<char>| "!**/*."@ + e),
            exts@.len() == se.len(),
            forall|j: int| 0 <= j < exts@.len() ==> exts@[j]@ == se[j],
            k <= exts@.len(),
            views(out@) == dir_globs + ext_globs.subrange(0, k as int),
        decreases exts.len() - k,
    {
        let mut g = owned("!**/*.");
        g.append(exts[k]);
        let ghost o0 = out@;
        out.push(g);
        proof {
            assert(views(out@) =~= views(o0).push(g@));
            assert(ext_globs.subrange(0, k + 1) =~= ext_globs.subrange(0, k as int).push(ext_globs[k as int]));
            assert(dir_globs + ext_globs.subrange(0, k + 1) =~= (dir_globs + ext_globs.subrange(0, k as int)).push(ext_globs[k as int]));
        }
        k = k + 1;
    }
    proof {
        assert(ext_globs.subrange(0, ext_globs.len() as int) == ext_globs);
    }
    out
}

/// Rule sets are rebuilt from scratch once more roots than this are cached.
pub open spec fn rule_cache_bound() -> nat {
    100
}

/// Rule sets built per walk root, kept until the cache grows too large.
#[derive(Debug, Clone)]
pub struct RuleCache<V> {
    pub rules: StrMap<V>,
}

impl<V> RuleCache<V> {
    pub open spec fn wf(&self) -> bool {
        self.rules.wf()
    }

    /// An empty cache.
    pub fn new() -> (r: RuleCache<V>)
        ensures
            r.wf(),
            r.rules@ == Map::<Seq<char>, V>::empty(),
    {
        RuleCache { rules: StrMap::new() }
    }

    /// The rule set cached for `root`, if any.
    pub fn get(&self, root: &str) -> (r: Option<&V>)
        requires
            self.wf(),
        ensures
            r matches Some(v) ==> self.rules@.contains_key(root@) && self.rules@[root@] == *v,
            r is None ==> !self.rules@.contains_key(root@),
    {
        self.rules.get(root)
    }

    /// Caches `rules` for `root`; a cache holding more than the bound is
    /// emptied first.
    pub fn insert(&mut self, root: String, rules: V)
        requires
            old(self).wf(),
        ensures
            final(self).wf(),
            final(self).rules@ == if old(self).rules@.dom().len() > rule_cache_bound() {
                Map::<Seq<char>, V>::empty().insert(root@, rules)
            } else {
                old(self).rules@.insert(root@, rules)
            },
    {
        if self.rules.len() > 100 {
            self.rules = StrMap::new();
        }
        self.rules.insert(root, rules);
    }
}

} // verus!
