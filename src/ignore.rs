//! The ignore evaluator: built-in rules, then caller and `.gitignore` patterns.

use vstd::prelude::*;
use vstd::string::StrSliceExecFns;
use crate::text::{
    contains_char, ends_with, has_char, join_slash, join_with_slash, str_ends_with, str_eq,
    strip_slashes, trim_trailing_slashes,
};

verus! {

#[verifier::external_type_specification]
#[verifier::external_body]
pub struct ExPattern(glob::Pattern);

/// Whether `glob::Pattern::new` accepts `p`.
pub uninterp spec fn glob_compiles(p: Seq<char>) -> bool;

/// Whether the pattern compiled from `p` matches `t` under the default match options.
pub uninterp spec fn glob_accepts(p: Seq<char>, t: Seq<char>) -> bool;

/// The Unicode lowercase form of `s`, as `str::to_lowercase` gives it.
pub uninterp spec fn lower_of(s: Seq<char>) -> Seq<char>;

/// A compiled glob together with the text it was compiled from.
pub struct Glob {
    source: String,
    pattern: glob::Pattern,
}

impl Glob {
    /// The text the glob was compiled from.
    pub closed spec fn source(&self) -> Seq<char> {
        self.source@
    }
}

/// Relies on `glob::Pattern::new`: it fails exactly on malformed patterns,
/// and otherwise compiles `p` as given.
#[verifier::external_body]
fn compile_glob(p: &str) -> (r: Option<Glob>)
    ensures
        r is Some <==> glob_compiles(p@),
        r matches Some(g) ==> g.source() == p@,
{
    glob::Pattern::new(p).ok().map(|pattern| Glob { source: p.to_string(), pattern })
}

/// Relies on `glob::Pattern::matches`: the answer depends on the pattern's
/// text and on `t` alone.
#[verifier::external_body]
fn glob_is_match(g: &Glob, t: &str) -> (r: bool)
    ensures
        r == glob_accepts(g.source(), t@),
{
    g.pattern.matches(t)
}

/// Relies on `str::to_lowercase`: the result depends on the characters alone,
/// and each character maps to at least one, so only the empty text gives the
/// empty text.
#[verifier::external_body]
fn lowercase(s: &str) -> (r: String)
    ensures
        r@ == lower_of(s@),
        s@.len() == 0 <==> r@.len() == 0,
{
    s.to_lowercase()
}

/// A directory name that is always skipped: dependency, build output, version-control, editor and cache folders.
pub open spec fn is_builtin_dir(s: Seq<char>) -> bool {
    s == "node_modules"@
        || s == "dist"@
        || s == "build"@
        || s == "out"@
        || s == "output"@
        || s == ".git"@
        || s == ".svn"@
        || s == ".hg"@
        || s == ".idea"@
        || s == ".vscode"@
        || s == ".vs"@
        || s == "__pycache__"@
        || s == ".pytest_cache"@
        || s == "target"@
        || s == "bin"@
        || s == "obj"@
        || s == "vendor"@
        || s == "bower_components"@
        || s == ".next"@
        || s == ".nuxt"@
        || s == ".output"@
        || s == "coverage"@
        || s == ".nyc_output"@
        || s == ".gradle"@
        || s == ".mvn"@
        || s == ".cache"@
        || s == ".tmp"@
}

/// A directory name that is always skipped: dependency, build output, version-control, editor and cache folders.
pub fn builtin_dir(s: &str) -> (r: bool)
    ensures
        r == is_builtin_dir(s@),
{
    str_eq(s, "node_modules")
        || str_eq(s, "dist")
        || str_eq(s, "build")
        || str_eq(s, "out")
        || str_eq(s, "output")
        || str_eq(s, ".git")
        || str_eq(s, ".svn")
        || str_eq(s, ".hg")
        || str_eq(s, ".idea")
        || str_eq(s, ".vscode")
        || str_eq(s, ".vs")
        || str_eq(s, "__pycache__")
        || str_eq(s, ".pytest_cache")
        || str_eq(s, "target")
        || str_eq(s, "bin")
        || str_eq(s, "obj")
        || str_eq(s, "vendor")
        || str_eq(s, "bower_components")
        || str_eq(s, ".next")
        || str_eq(s, ".nuxt")
        || str_eq(s, ".output")
        || str_eq(s, "coverage")
        || str_eq(s, ".nyc_output")
        || str_eq(s, ".gradle")
        || str_eq(s, ".mvn")
        || str_eq(s, ".cache")
        || str_eq(s, ".tmp")
}

/// A file name that is always skipped: lockfiles and operating-system metadata.
pub open spec fn is_builtin_file(s: Seq<char>) -> bool {
    s == "package-lock.json"@
        || s == "yarn.lock"@
        || s == "pnpm-lock.yaml"@
        || s == ".DS_Store"@
        || s == "Thumbs.db"@
        || s == "desktop.ini"@
}

/// A file name that is always skipped: lockfiles and operating-system metadata.
pub fn builtin_file(s: &str) -> (r: bool)
    ensures
        r == is_builtin_file(s@),
{
    str_eq(s, "package-lock.json")
        || str_eq(s, "yarn.lock")
        || str_eq(s, "pnpm-lock.yaml")
        || str_eq(s, ".DS_Store")
        || str_eq(s, "Thumbs.db")
        || str_eq(s, "desktop.ini")
}

/// A lowercase extension that is always skipped: binaries, media, archives, fonts, databases and generated files.
pub open spec fn is_builtin_ext(s: Seq<char>) -> bool {
    s == "min.js"@
        || s == "min.css"@
        || s == "map"@
        || s == "lock"@
        || s == "exe"@
        || s == "dll"@
        || s == "so"@
        || s == "dylib"@
        || s == "o"@
        || s == "a"@
        || s == "png"@
        || s == "jpg"@
        || s == "jpeg"@
        || s == "gif"@
        || s == "svg"@
        || s == "ico"@
        || s == "bmp"@
        || s == "webp"@
        || s == "mp3"@
        || s == "mp4"@
        || s == "avi"@
        || s == "mov"@
        || s == "wav"@
        || s == "flac"@
        || s == "zip"@
        || s == "tar"@
        || s == "gz"@
        || s == "rar"@
        || s == "7z"@
        || s == "bz2"@
        || s == "pdf"@
        || s == "doc"@
        || s == "docx"@
        || s == "xls"@
        || s == "xlsx"@
        || s == "ppt"@
        || s == "pptx"@
        || s == "woff"@
        || s == "woff2"@
        || s == "ttf"@
        || s == "eot"@
        || s == "otf"@
        || s == "sqlite"@
        || s == "db"@
        || s == "mdb"@
        || s == "pyc"@
        || s == "pyo"@
        || s == "class"@
}

/// A lowercase extension that is always skipped: binaries, media, archives, fonts, databases and generated files.
pub fn builtin_ext(s: &str) -> (r: bool)
    ensures
        r == is_builtin_ext(s@),
{
    str_eq(s, "min.js")
        || str_eq(s, "min.css")
        || str_eq(s, "map")
        || str_eq(s, "lock")
        || str_eq(s, "exe")
        || str_eq(s, "dll")
        || str_eq(s, "so")
        || str_eq(s, "dylib")
        || str_eq(s, "o")
        || str_eq(s, "a")
        || str_eq(s, "png")
        || str_eq(s, "jpg")
        || str_eq(s, "jpeg")
        || str_eq(s, "gif")
        || str_eq(s, "svg")
        || str_eq(s, "ico")
        || str_eq(s, "bmp")
        || str_eq(s, "webp")
        || str_eq(s, "mp3")
        || str_eq(s, "mp4")
        || str_eq(s, "avi")
        || str_eq(s, "mov")
        || str_eq(s, "wav")
        || str_eq(s, "flac")
        || str_eq(s, "zip")
        || str_eq(s, "tar")
        || str_eq(s, "gz")
        || str_eq(s, "rar")
        || str_eq(s, "7z")
        || str_eq(s, "bz2")
        || str_eq(s, "pdf")
        || str_eq(s, "doc")
        || str_eq(s, "docx")
        || str_eq(s, "xls")
        || str_eq(s, "xlsx")
        || str_eq(s, "ppt")
        || str_eq(s, "pptx")
        || str_eq(s, "woff")
        || str_eq(s, "woff2")
        || str_eq(s, "ttf")
        || str_eq(s, "eot")
        || str_eq(s, "otf")
        || str_eq(s, "sqlite")
        || str_eq(s, "db")
        || str_eq(s, "mdb")
        || str_eq(s, "pyc")
        || str_eq(s, "pyo")
        || str_eq(s, "class")
}

/// Looks at the characters before position `k` for the last dot.
pub open spec fn ext_scan(name: Seq<char>, k: int) -> Seq<char>
    decreases k,
{
    if k <= 0 || k > name.len() {
        seq![]
    } else if name[k - 1] == '.' {
        if k == 1 {
            seq![]
        } else {
            name.subrange(k, name.len() as int)
        }
    } else {
        ext_scan(name, k - 1)
    }
}

/// The extension of a file name: what follows its last dot, unless that dot
/// is the first character; empty when there is none.
pub open spec fn extension_of(name: Seq<char>) -> Seq<char> {
    ext_scan(name, name.len() as int)
}

/// The extension of a file name, as `extension_of` defines it.
pub fn file_extension(name: &str) -> (r: String)
    ensures
        r@ == extension_of(name@),
{
    let n = name.unicode_len();
    let mut k = n;
    while k > 0 && name.get_char(k - 1) != '.'
        invariant
            n == name@.len(),
            k <= n,
            ext_scan(name@, k as int) == ext_scan(name@, n as int),
        decreases k,
    {
        k -= 1;
    }
    if k <= 1 {
        String::new()
    } else {
        String::from_str(name.substring_char(k, n))
    }
}

/// The lowercase extension of a file name.
pub open spec fn lower_ext(name: Seq<char>) -> Seq<char> {
    lower_of(extension_of(name))
}

/// The lowercase extension of a file name.
pub fn lower_extension(name: &str) -> (r: String)
    ensures
        r@ == lower_ext(name@),
        r@.len() == 0 <==> extension_of(name@).len() == 0,
{
    let e = file_extension(name);
    lowercase(e.as_str())
}

/// Some directory above the file (every segment but the last) is a built-in one.
pub open spec fn in_builtin_dir(segs: Seq<Seq<char>>) -> bool {
    exists|i: int| 0 <= i < segs.len() - 1 && is_builtin_dir(#[trigger] segs[i])
}

/// The lowercase name ends in `.min.js` or `.min.css`.
pub open spec fn is_minified(name: Seq<char>) -> bool {
    ends_with(lower_of(name), ".min.js"@) || ends_with(lower_of(name), ".min.css"@)
}

/// One of the four built-in rules excludes the file.
pub open spec fn builtin_ignored(segs: Seq<Seq<char>>, name: Seq<char>) -> bool {
    in_builtin_dir(segs) || is_builtin_file(name) || is_builtin_ext(lower_ext(name))
        || is_minified(name)
}

/// A pattern with neither `*` nor `/` is a bare name.
pub open spec fn is_bare(p: Seq<char>) -> bool {
    !has_char(p, '*') && !has_char(p, '/')
}

/// The pattern `p` (trailing slashes removed) excludes the file: as a bare name
/// equal to a segment or to the name, or as a glob that compiles and matches the
/// joined relative path or the name.
pub open spec fn pattern_hits(p: Seq<char>, segs: Seq<Seq<char>>, name: Seq<char>) -> bool {
    let q = strip_slashes(p);
    (is_bare(q) && (segs.contains(q) || name == q)) || (glob_compiles(q) && (glob_accepts(
        q,
        join_slash(segs),
    ) || glob_accepts(q, name)))
}

/// Some pattern of `patterns` excludes the file.
pub open spec fn patterns_hit(
    patterns: Seq<Seq<char>>,
    segs: Seq<Seq<char>>,
    name: Seq<char>,
) -> bool {
    exists|i: int| 0 <= i < patterns.len() && pattern_hits(#[trigger] patterns[i], segs, name)
}

/// The views of a list of strings.
pub open spec fn views(v: Seq<String>) -> Seq<Seq<char>> {
    v.map_values(|s: String| s@)
}

/// Whether the file whose relative path has segments `segs` (the last being
/// its name `name`) is excluded, given the caller's and the `.gitignore` patterns.
pub open spec fn ignored(
    segs: Seq<Seq<char>>,
    name: Seq<char>,
    custom: Seq<Seq<char>>,
    gitignore: Seq<Seq<char>>,
) -> bool {
    builtin_ignored(segs, name) || patterns_hit(custom + gitignore, segs, name)
}

fn any_builtin_dir(segments: &Vec<String>) -> (r: bool)
    ensures
        r == in_builtin_dir(views(segments@)),
{
    let ghost vs = views(segments@);
    let n = segments.len();
    if n == 0 {
        return false;
    }
    let mut i: usize = 0;
    while i < n - 1
        invariant
            n == segments@.len(),
            n > 0,
            vs == views(segments@),
            i <= segments@.len(),
            forall|j: int| 0 <= j < i ==> !is_builtin_dir(#[trigger] vs[j]),
        decreases n - i,
    {
        if builtin_dir(segments[i].as_str()) {
            assert(is_builtin_dir(vs[i as int]));
            return true;
        }
        i += 1;
    }
    false
}

fn segment_equals(segments: &Vec<String>, p: &str) -> (r: bool)
    ensures
        r == views(segments@).contains(p@),
{
    let ghost vs = views(segments@);
    let mut i: usize = 0;
    while i < segments.len()
        invariant
            vs == views(segments@),
            i <= segments@.len(),
            forall|j: int| 0 <= j < i ==> vs[j] != p@,
        decreases segments.len() - i,
    {
        if str_eq(segments[i].as_str(), p) {
            assert(vs[i as int] == p@);
            return true;
        }
        i += 1;
    }
    false
}

/// Whether a single pattern excludes the file.
pub fn pattern_matches(
    pattern: &str,
    segments: &Vec<String>,
    rel_path: &str,
    file_name: &str,
) -> (r: bool)
    requires
        rel_path@ == join_slash(views(segments@)),
    ensures
        r == pattern_hits(pattern@, views(segments@), file_name@),
{
    let q = trim_trailing_slashes(pattern);
    let bare = !contains_char(q.as_str(), '*') && !contains_char(q.as_str(), '/');
    if bare {
        if segment_equals(segments, q.as_str()) || str_eq(file_name, q.as_str()) {
            return true;
        }
    }
    match compile_glob(q.as_str()) {
        Some(g) => glob_is_match(&g, rel_path) || glob_is_match(&g, file_name),
        None => false,
    }
}

/// Whether the file whose relative path has segments `segments` (the last one
/// being `file_name`) is excluded: built-in directories, file names, extensions
/// and minified assets first, then each caller pattern and each `.gitignore`
/// pattern in turn.
pub fn should_ignore(
    segments: &Vec<String>,
    file_name: &str,
    custom_ignore: &Vec<String>,
    gitignore_patterns: &Vec<String>,
) -> (r: bool)
    ensures
        r == ignored(views(segments@), file_name@, views(custom_ignore@), views(gitignore_patterns@)),
        extension_of(file_name@).len() == 0 ==> r == (in_builtin_dir(views(segments@))
            || is_builtin_file(file_name@) || is_minified(file_name@) || patterns_hit(
            views(custom_ignore@) + views(gitignore_patterns@),
            views(segments@),
            file_name@,
        )),
{
    let ext = lower_extension(file_name);
    proof {
        if extension_of(file_name@).len() == 0 {
            lemma_no_extension_only_other_rules(
                views(segments@),
                file_name@,
                views(custom_ignore@),
                views(gitignore_patterns@),
            );
        }
    }
    if any_builtin_dir(segments) {
        return true;
    }
    if builtin_file(file_name) {
        return true;
    }
    if builtin_ext(ext.as_str()) {
        return true;
    }
    let name_lower = lowercase(file_name);
    if str_ends_with(name_lower.as_str(), ".min.js") || str_ends_with(name_lower.as_str(), ".min.css") {
        return true;
    }
    let rel = join_with_slash(segments);
    let ghost segs = views(segments@);
    let ghost all = views(custom_ignore@) + views(gitignore_patterns@);
    let mut i: usize = 0;
    while i < custom_ignore.len()
        invariant
            segs == views(segments@),
            all == views(custom_ignore@) + views(gitignore_patterns@),
            rel@ == join_slash(segs),
            i <= custom_ignore@.len(),
            forall|j: int| 0 <= j < i ==> !pattern_hits(#[trigger] all[j], segs, file_name@),
        decreases custom_ignore.len() - i,
    {
        if pattern_matches(custom_ignore[i].as_str(), segments, rel.as_str(), file_name) {
            assert(pattern_hits(all[i as int], segs, file_name@));
            return true;
        }
        i += 1;
    }
    let n = custom_ignore.len();
    let mut k: usize = 0;
    while k < gitignore_patterns.len()
        invariant
            segs == views(segments@),
            all == views(custom_ignore@) + views(gitignore_patterns@),
            rel@ == join_slash(segs),
            n == custom_ignore@.len(),
            k <= gitignore_patterns@.len(),
            forall|j: int| 0 <= j < n + k ==> !pattern_hits(#[trigger] all[j], segs, file_name@),
        decreases gitignore_patterns.len() - k,
    {
        if pattern_matches(gitignore_patterns[k].as_str(), segments, rel.as_str(), file_name) {
            assert(pattern_hits(all[n + k], segs, file_name@));
            return true;
        }
        k += 1;
    }
    false
}

/// A file whose name has no extension is never excluded by the extension
/// rule: only the directory, file-name, minified and pattern rules apply.
pub proof fn lemma_no_extension_only_other_rules(
    segs: Seq<Seq<char>>,
    name: Seq<char>,
    custom: Seq<Seq<char>>,
    gitignore: Seq<Seq<char>>,
)
    requires
        lower_ext(name).len() == 0,
    ensures
        ignored(segs, name, custom, gitignore) == (in_builtin_dir(segs) || is_builtin_file(name)
            || is_minified(name) || patterns_hit(custom + gitignore, segs, name)),
{
    assert(!is_builtin_ext(lower_ext(name))) by {
        reveal_strlit("min.js");
        reveal_strlit("min.css");
        reveal_strlit("map");
        reveal_strlit("lock");
        reveal_strlit("exe");
        reveal_strlit("dll");
        reveal_strlit("so");
        reveal_strlit("dylib");
        reveal_strlit("o");
        reveal_strlit("a");
        reveal_strlit("png");
        reveal_strlit("jpg");
        reveal_strlit("jpeg");
        reveal_strlit("gif");
        reveal_strlit("svg");
        reveal_strlit("ico");
        reveal_strlit("bmp");
        reveal_strlit("webp");
        reveal_strlit("mp3");
        reveal_strlit("mp4");
        reveal_strlit("avi");
        reveal_strlit("mov");
        reveal_strlit("wav");
        reveal_strlit("flac");
        reveal_strlit("zip");
        reveal_strlit("tar");
        reveal_strlit("gz");
        reveal_strlit("rar");
        reveal_strlit("7z");
        reveal_strlit("bz2");
        reveal_strlit("pdf");
        reveal_strlit("doc");
        reveal_strlit("docx");
        reveal_strlit("xls");
        reveal_strlit("xlsx");
        reveal_strlit("ppt");
        reveal_strlit("pptx");
        reveal_strlit("woff");
        reveal_strlit("woff2");
        reveal_strlit("ttf");
        reveal_strlit("eot");
        reveal_strlit("otf");
        reveal_strlit("sqlite");
        reveal_strlit("db");
        reveal_strlit("mdb");
        reveal_strlit("pyc");
        reveal_strlit("pyo");
        reveal_strlit("class");
    }
}

/// A file below a built-in directory, at any depth, is excluded whatever its
/// name and whatever the patterns.
pub proof fn lemma_builtin_dir_excludes(
    segs: Seq<Seq<char>>,
    name: Seq<char>,
    custom: Seq<Seq<char>>,
    gitignore: Seq<Seq<char>>,
    i: int,
)
    requires
        0 <= i < segs.len() - 1,
        is_builtin_dir(segs[i]),
    ensures
        ignored(segs, name, custom, gitignore),
{
    assert(in_builtin_dir(segs));
}

/// A bare caller pattern (once trailing slashes are removed) equal to a
/// directory name excludes every file below any directory of that name.
pub proof fn lemma_bare_name_excludes_subtree(
    segs: Seq<Seq<char>>,
    name: Seq<char>,
    custom: Seq<Seq<char>>,
    gitignore: Seq<Seq<char>>,
    p: int,
    i: int,
)
    requires
        0 <= p < custom.len(),
        is_bare(strip_slashes(custom[p])),
        0 <= i < segs.len() - 1,
        segs[i] == strip_slashes(custom[p]),
    ensures
        ignored(segs, name, custom, gitignore),
{
    assert(segs.contains(segs[i]));
    assert((custom + gitignore)[p] == custom[p]);
    assert(pattern_hits((custom + gitignore)[p], segs, name));
}

} // verus!
