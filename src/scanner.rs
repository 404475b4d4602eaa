//! The directory walker's logic: `.gitignore` parsing, filtering and the
//! sorted list of file records. The traversal itself hands in `WalkEntry`s.

use vstd::prelude::*;
use vstd::string::StrSliceExecFns;
use vstd::string::StringExecFns;
use crate::ignore::{extension_of, ignored, lower_ext, lower_extension, should_ignore, views};
use crate::language::{ext_to_language, language_of, lemma_empty_is_unknown};
use crate::text::{
    compare_str, forward_slashes, join_slash, join_with_slash, lemma_lt_irrefl, lemma_lt_trans, seq_lt,
    to_forward_slashes,
};

verus! {

/// One regular file met by the traversal.
pub struct WalkEntry {
    /// The file's full path as the host wrote it.
    pub path: String,
    /// The segments of its path relative to the root; the last is its name.
    pub segments: Vec<String>,
    /// Its size in bytes (zero where the metadata could not be read).
    pub size: u64,
}

/// One file of a scan's result.
#[derive(Debug, Clone)]
pub struct FileInfo {
    pub path: String,
    pub relative_path: String,
    pub name: String,
    pub ext: String,
    pub size: u64,
    pub language: String,
}

/// What a `FileInfo` holds.
pub ghost struct FileRecord {
    pub path: Seq<char>,
    pub relative_path: Seq<char>,
    pub name: Seq<char>,
    pub ext: Seq<char>,
    pub size: u64,
    pub language: Seq<char>,
}

impl View for FileInfo {
    type V = FileRecord;

    open spec fn view(&self) -> FileRecord {
        FileRecord {
            path: self.path@,
            relative_path: self.relative_path@,
            name: self.name@,
            ext: self.ext@,
            size: self.size,
            language: self.language@,
        }
    }
}

/// The name of an entry: the last segment of its relative path.
pub open spec fn entry_name(e: WalkEntry) -> Seq<char> {
    views(e.segments@).last()
}

/// The extension as a record shows it: with a leading dot, or empty.
pub open spec fn dotted(e: Seq<char>) -> Seq<char> {
    if e.len() == 0 {
        seq![]
    } else {
        seq!['.'] + e
    }
}

/// The record that a scan emits for an entry.
pub open spec fn record_of(e: WalkEntry) -> FileRecord {
    let name = entry_name(e);
    FileRecord {
        path: forward_slashes(e.path@),
        relative_path: forward_slashes(join_slash(views(e.segments@))),
        name,
        ext: dotted(lower_ext(name)),
        size: e.size,
        language: language_of(lower_ext(name)),
    }
}

/// An entry that a scan keeps: it has a name and no rule excludes it.
pub open spec fn kept(e: WalkEntry, custom: Seq<Seq<char>>, gitignore: Seq<Seq<char>>) -> bool {
    e.segments@.len() > 0 && !ignored(views(e.segments@), entry_name(e), custom, gitignore)
}

/// No kept entry before position `k` has the relative path of entry `k`.
pub open spec fn first_with_path(
    entries: Seq<WalkEntry>,
    k: int,
    custom: Seq<Seq<char>>,
    gitignore: Seq<Seq<char>>,
) -> bool {
    forall|k2: int|
        0 <= k2 < k && kept(#[trigger] entries[k2], custom, gitignore) ==> record_of(
            entries[k2],
        ).relative_path != record_of(entries[k]).relative_path
}

/// The record is that of an entry that a scan keeps, the first kept one with
/// its relative path.
pub open spec fn from_kept(
    f: FileRecord,
    entries: Seq<WalkEntry>,
    custom: Seq<Seq<char>>,
    gitignore: Seq<Seq<char>>,
) -> bool {
    exists|k: int|
        0 <= k < entries.len() && kept(entries[k], custom, gitignore) && first_with_path(
            entries,
            k,
            custom,
            gitignore,
        ) && f == record_of(#[trigger] entries[k])
}

/// Some record of `s` has relative path `p`.
pub open spec fn has_relative_path(s: Seq<FileRecord>, p: Seq<char>) -> bool {
    exists|i: int| 0 <= i < s.len() && (#[trigger] s[i]).relative_path == p
}

/// Records in strictly ascending order of relative path: sorted, and no
/// relative path twice.
pub open spec fn strictly_sorted(s: Seq<FileRecord>) -> bool {
    forall|i: int, j: int|
        0 <= i < j < s.len() ==> seq_lt(#[trigger] s[i].relative_path, #[trigger] s[j].relative_path)
}

/// The lines of a text as `str::lines` yields them, cutting from `start`,
/// having looked at every character before `i`.
pub open spec fn cut_lines(s: Seq<char>, start: int, i: int) -> Seq<Seq<char>>
    decreases s.len() - i,
{
    if i >= s.len() {
        if start < s.len() {
            seq![s.subrange(start, s.len() as int)]
        } else {
            seq![]
        }
    } else if s[i] == '\n' {
        seq![drop_cr(s.subrange(start, i))] + cut_lines(s, i + 1, i + 1)
    } else {
        cut_lines(s, start, i + 1)
    }
}

/// A line without the `\r` of a `\r\n` ending.
pub open spec fn drop_cr(l: Seq<char>) -> Seq<char> {
    if l.len() > 0 && l.last() == '\r' {
        l.drop_last()
    } else {
        l
    }
}

/// The lines of a text: split at `\n` or `\r\n`; a last line without an
/// ending still counts, and an empty text has none.
pub open spec fn lines_of(s: Seq<char>) -> Seq<Seq<char>> {
    cut_lines(s, 0, 0)
}

/// The lines of a text, as `lines_of` defines them.
pub fn split_lines(s: &str) -> (r: Vec<String>)
    ensures
        views(r@) == lines_of(s@),
{
    let n = s.unicode_len();
    let mut r: Vec<String> = Vec::new();
    let mut start: usize = 0;
    let mut i: usize = 0;
    while i < n
        invariant
            n == s@.len(),
            start <= i <= n,
            views(r@) + cut_lines(s@, start as int, i as int) == lines_of(s@),
        decreases n - i,
    {
        if s.get_char(i) == '\n' {
            let mut end = i;
            if end > start && s.get_char(end - 1) == '\r' {
                end = end - 1;
            }
            let line = String::from_str(s.substring_char(start, end));
            proof {
                let l = s@.subrange(start as int, i as int);
                assert(line@ == drop_cr(l)) by {
                    if l.len() > 0 && l.last() == '\r' {
                        assert(l.drop_last() == s@.subrange(start as int, end as int));
                    }
                }
                let rest = cut_lines(s@, i + 1, i + 1);
                assert(views(r@.push(line)) == views(r@).push(line@));
                assert(views(r@).push(line@) + rest == views(r@) + (seq![line@] + rest));
            }
            r.push(line);
            start = i + 1;
        }
        i += 1;
    }
    if start < n {
        let line = String::from_str(s.substring_char(start, n));
        proof {
            assert(views(r@.push(line)) == views(r@).push(line@));
            assert(views(r@) + seq![line@] == views(r@).push(line@));
        }
        r.push(line);
    } else {
        assert(views(r@) + seq![] == views(r@));
    }
    r
}

/// A character with the Unicode White_Space property.
pub open spec fn is_white_space(c: char) -> bool {
    let u = c as u32;
    (0x09 <= u <= 0x0D) || u == 0x20 || u == 0x85 || u == 0xA0 || u == 0x1680 || (0x2000 <= u
        <= 0x200A) || u == 0x2028 || u == 0x2029 || u == 0x202F || u == 0x205F || u == 0x3000
}

/// `s` without its leading whitespace.
pub open spec fn trim_start(s: Seq<char>) -> Seq<char>
    decreases s.len(),
{
    if s.len() > 0 && is_white_space(s[0]) {
        trim_start(s.drop_first())
    } else {
        s
    }
}

/// `s` without its trailing whitespace.
pub open spec fn trim_end(s: Seq<char>) -> Seq<char>
    decreases s.len(),
{
    if s.len() > 0 && is_white_space(s.last()) {
        trim_end(s.drop_last())
    } else {
        s
    }
}

/// `s` without leading and trailing whitespace.
pub open spec fn trim_of(s: Seq<char>) -> Seq<char> {
    trim_end(trim_start(s))
}

/// Relies on `str::trim`: it removes leading and trailing characters with the
/// Unicode White_Space property.
#[verifier::external_body]
fn trimmed(s: &str) -> (r: String)
    ensures
        r@ == trim_of(s@),
{
    s.trim().to_string()
}

proof fn lemma_trim_start_head(s: Seq<char>)
    ensures
        trim_start(s).len() > 0 ==> !is_white_space(trim_start(s)[0]),
    decreases s.len(),
{
    if s.len() > 0 && is_white_space(s[0]) {
        lemma_trim_start_head(s.drop_first());
    }
}

proof fn lemma_trim_end_prefix(s: Seq<char>)
    ensures
        trim_end(s).len() <= s.len(),
        trim_end(s) == s.subrange(0, trim_end(s).len() as int),
        trim_end(s).len() > 0 ==> !is_white_space(trim_end(s).last()),
    decreases s.len(),
{
    if s.len() > 0 && is_white_space(s.last()) {
        lemma_trim_end_prefix(s.drop_last());
        assert(s.drop_last().subrange(0, trim_end(s).len() as int) == s.subrange(
            0,
            trim_end(s).len() as int,
        ));
    } else {
        assert(s.subrange(0, s.len() as int) == s);
    }
}

/// A trimmed text starts and ends with a character that is not whitespace.
pub proof fn lemma_trimmed_ends(s: Seq<char>)
    ensures
        trim_of(s).len() > 0 ==> !is_white_space(trim_of(s)[0]) && !is_white_space(
            trim_of(s).last(),
        ),
{
    lemma_trim_start_head(s);
    lemma_trim_end_prefix(trim_start(s));
    if trim_of(s).len() > 0 {
        assert(trim_of(s)[0] == trim_start(s)[0]);
    }
}

/// A trimmed line that stands as a pattern: not empty, not a comment.
pub open spec fn is_pattern_line(t: Seq<char>) -> bool {
    t.len() > 0 && t[0] != '#'
}

/// A text with no whitespace at either end.
pub open spec fn is_trimmed(t: Seq<char>) -> bool {
    t.len() > 0 ==> !is_white_space(t[0]) && !is_white_space(t.last())
}

/// The patterns that a list of lines gives: each line trimmed, blank and
/// comment lines dropped, order kept.
pub open spec fn patterns_of_lines(ls: Seq<Seq<char>>) -> Seq<Seq<char>>
    decreases ls.len(),
{
    if ls.len() == 0 {
        seq![]
    } else if is_pattern_line(trim_of(ls.last())) {
        patterns_of_lines(ls.drop_last()).push(trim_of(ls.last()))
    } else {
        patterns_of_lines(ls.drop_last())
    }
}

/// The patterns of a `.gitignore` text.
pub open spec fn gitignore_of(s: Seq<char>) -> Seq<Seq<char>> {
    patterns_of_lines(lines_of(s))
}

/// Every pattern that `patterns_of_lines` gives is a pattern line.
pub proof fn lemma_patterns_are_pattern_lines(ls: Seq<Seq<char>>)
    ensures
        forall|i: int|
            0 <= i < patterns_of_lines(ls).len() ==> is_pattern_line(
                #[trigger] patterns_of_lines(ls)[i],
            ) && is_trimmed(patterns_of_lines(ls)[i]),
    decreases ls.len(),
{
    if ls.len() > 0 {
        let pre = patterns_of_lines(ls.drop_last());
        lemma_patterns_are_pattern_lines(ls.drop_last());
        lemma_trimmed_ends(ls.last());
        assert forall|i: int|
            0 <= i < patterns_of_lines(ls).len() implies is_pattern_line(
            #[trigger] patterns_of_lines(ls)[i],
        ) && is_trimmed(patterns_of_lines(ls)[i]) by {
            if i < pre.len() {
                assert(patterns_of_lines(ls)[i] == pre[i]);
            }
        }
    }
}

/// A line that is blank or a comment once trimmed adds no pattern: the
/// patterns of the lines before it and after it are those without it.
pub proof fn lemma_blank_and_comment_lines_add_nothing(
    before: Seq<Seq<char>>,
    line: Seq<char>,
    after: Seq<Seq<char>>,
)
    requires
        trim_of(line).len() == 0 || trim_of(line)[0] == '#',
    ensures
        patterns_of_lines(before + seq![line] + after) == patterns_of_lines(before + after),
    decreases after.len(),
{
    if after.len() == 0 {
        assert((before + seq![line] + after).drop_last() == before);
        assert(before + after == before);
    } else {
        lemma_blank_and_comment_lines_add_nothing(before, line, after.drop_last());
        assert((before + seq![line] + after).drop_last() == before + seq![line] + after.drop_last());
        assert((before + after).drop_last() == before + after.drop_last());
    }
}

proof fn lemma_no_pattern_lines(ls: Seq<Seq<char>>)
    requires
        forall|i: int| 0 <= i < ls.len() ==> !is_pattern_line(trim_of(#[trigger] ls[i])),
    ensures
        patterns_of_lines(ls) == Seq::<Seq<char>>::empty(),
    decreases ls.len(),
{
    if ls.len() > 0 {
        assert(!is_pattern_line(trim_of(ls[ls.len() - 1])));
        lemma_no_pattern_lines(ls.drop_last());
    }
}

/// A `.gitignore` text whose lines are all blank or comments once trimmed
/// gives no pattern, so a scan keeps exactly the entries it keeps without it.
pub proof fn lemma_comment_only_gitignore_keeps_same(
    text: Seq<char>,
    e: WalkEntry,
    custom: Seq<Seq<char>>,
)
    requires
        forall|i: int|
            0 <= i < lines_of(text).len() ==> !is_pattern_line(trim_of(#[trigger] lines_of(text)[i])),
    ensures
        gitignore_of(text) == Seq::<Seq<char>>::empty(),
        kept(e, custom, gitignore_of(text)) == kept(e, custom, Seq::<Seq<char>>::empty()),
{
    lemma_no_pattern_lines(lines_of(text));
}

/// The patterns of a `.gitignore` text: its lines trimmed, blank lines and
/// lines that start with `#` dropped; no pattern has whitespace at either end.
pub fn parse_gitignore(content: &str) -> (r: Vec<String>)
    ensures
        views(r@) == gitignore_of(content@),
        forall|i: int|
            0 <= i < r@.len() ==> is_pattern_line(#[trigger] r@[i]@) && is_trimmed(r@[i]@),
{
    let lines = split_lines(content);
    let ghost ls = views(lines@);
    let mut r: Vec<String> = Vec::new();
    let mut i: usize = 0;
    while i < lines.len()
        invariant
            ls == views(lines@),
            i <= lines@.len(),
            views(r@) == patterns_of_lines(ls.subrange(0, i as int)),
        decreases lines.len() - i,
    {
        let t = trimmed(lines[i].as_str());
        let keep = t.as_str().unicode_len() > 0 && t.as_str().get_char(0) != '#';
        proof {
            let pre = ls.subrange(0, i as int);
            let post = ls.subrange(0, i + 1);
            assert(post.drop_last() == pre);
            assert(post.last() == lines@[i as int]@);
        }
        if keep {
            assert(views(r@.push(t)) == views(r@).push(t@));
            r.push(t);
        }
        i += 1;
    }
    proof {
        assert(ls.subrange(0, lines@.len() as int) == ls);
        assert(views(r@) == patterns_of_lines(ls));
        lemma_patterns_are_pattern_lines(ls);
        assert forall|i: int| 0 <= i < r@.len() implies is_pattern_line(#[trigger] r@[i]@)
            && is_trimmed(r@[i]@) by {
            assert(views(r@)[i] == r@[i]@);
            assert(patterns_of_lines(ls)[i] == r@[i]@);
        }
    }
    r
}

/// The record of an entry that has a name.
pub fn file_info(e: &WalkEntry) -> (r: FileInfo)
    requires
        e.segments@.len() > 0,
    ensures
        r@ == record_of(*e),
        extension_of(entry_name(*e)).len() == 0 ==> r@.ext.len() == 0 && r@.language
            == "Unknown"@,
{
    let n = e.segments.len();
    let name = e.segments[n - 1].clone();
    let ext = lower_extension(name.as_str());
    let rel = join_with_slash(&e.segments);
    let language = String::from_str(ext_to_language(ext.as_str()));
    let dotted_ext = if ext.as_str().unicode_len() == 0 {
        String::new()
    } else {
        String::from_str(".").concat(ext.as_str())
    };
    proof {
        reveal_strlit(".");
        assert(views(e.segments@).last() == e.segments@[n - 1]@);
        if ext@.len() == 0 {
            lemma_empty_is_unknown(ext@);
        }
    }
    let r = FileInfo {
        path: to_forward_slashes(e.path.as_str()),
        relative_path: to_forward_slashes(rel.as_str()),
        name,
        ext: dotted_ext,
        size: e.size,
        language,
    };
    assert(r@.name == record_of(*e).name);
    assert(r@.ext == record_of(*e).ext);
    assert(r@.language == record_of(*e).language);
    assert(r@.path == record_of(*e).path);
    assert(r@.relative_path == record_of(*e).relative_path);
    r
}

/// The views of a list of file infos.
pub open spec fn records(v: Seq<FileInfo>) -> Seq<FileRecord> {
    v.map_values(|f: FileInfo| f@)
}

/// The records of one scan: every entry that no rule excludes becomes a
/// record, and the records come in strictly ascending order of relative path.
/// Where kept entries share a relative path, the first of them stands for all.
pub fn scan_dir(
    entries: &Vec<WalkEntry>,
    custom_ignore: &Vec<String>,
    gitignore_patterns: &Vec<String>,
) -> (r: Vec<FileInfo>)
    ensures
        strictly_sorted(records(r@)),
        forall|i: int|
            0 <= i < r@.len() ==> from_kept(
                #[trigger] records(r@)[i],
                entries@,
                views(custom_ignore@),
                views(gitignore_patterns@),
            ),
        forall|k: int|
            0 <= k < entries@.len() && kept(
                #[trigger] entries@[k],
                views(custom_ignore@),
                views(gitignore_patterns@),
            ) ==> has_relative_path(records(r@), record_of(entries@[k]).relative_path),
        forall|i: int|
            0 <= i < r@.len() ==> extension_of((#[trigger] records(r@)[i]).name).len() == 0
                ==> records(r@)[i].ext.len() == 0 && records(r@)[i].language == "Unknown"@,
{
    let ghost custom = views(custom_ignore@);
    let ghost git = views(gitignore_patterns@);
    let mut r: Vec<FileInfo> = Vec::new();
    let mut k: usize = 0;
    while k < entries.len()
        invariant
            custom == views(custom_ignore@),
            git == views(gitignore_patterns@),
            k <= entries@.len(),
            strictly_sorted(records(r@)),
            forall|i: int|
                0 <= i < r@.len() ==> from_kept(#[trigger] records(r@)[i], entries@, custom, git),
            forall|k2: int|
                0 <= k2 < k && kept(#[trigger] entries@[k2], custom, git) ==> has_relative_path(
                    records(r@),
                    record_of(entries@[k2]).relative_path,
                ),
            forall|i: int|
                0 <= i < r@.len() ==> extension_of((#[trigger] records(r@)[i]).name).len() == 0
                    ==> records(r@)[i].ext.len() == 0 && records(r@)[i].language == "Unknown"@,
        decreases entries.len() - k,
    {
        let e = &entries[k];
        let n = e.segments.len();
        if n > 0 && !should_ignore(&e.segments, e.segments[n - 1].as_str(), custom_ignore, gitignore_patterns) {
            proof {
                assert(views(e.segments@).last() == e.segments@[n - 1]@);
            }
            let info = file_info(e);
            let mut pos: usize = 0;
            while pos < r.len() && compare_str(
                r[pos].relative_path.as_str(),
                info.relative_path.as_str(),
            ) < 0
                invariant
                    pos <= r@.len(),
                    forall|j: int|
                        0 <= j < pos ==> seq_lt(r@[j]@.relative_path, info@.relative_path),
                decreases r.len() - pos,
            {
                pos += 1;
            }
            let c: i8 = if pos < r.len() {
                compare_str(r[pos].relative_path.as_str(), info.relative_path.as_str())
            } else {
                1
            };
            if pos < r.len() && c == 0 {
                assert(records(r@)[pos as int].relative_path == record_of(
                    entries@[k as int],
                ).relative_path);
            } else {
                let ghost old_r = r@;
                proof {
                    if pos < r@.len() {
                        assert(seq_lt(info@.relative_path, old_r[pos as int]@.relative_path));
                    }
                    assert forall|k2: int|
                        0 <= k2 < k && kept(#[trigger] entries@[k2], custom, git) implies record_of(
                        entries@[k2],
                    ).relative_path != record_of(entries@[k as int]).relative_path by {
                        if record_of(entries@[k2]).relative_path == info@.relative_path {
                            let q = choose|q: int|
                                0 <= q < old_r.len() && (#[trigger] records(old_r)[q]).relative_path
                                    == info@.relative_path;
                            assert(records(old_r)[q].relative_path == old_r[q]@.relative_path);
                            lemma_lt_irrefl(info@.relative_path);
                            if q > pos {
                                assert(records(old_r)[pos as int].relative_path
                                    == old_r[pos as int]@.relative_path);
                                assert(seq_lt(records(old_r)[pos as int].relative_path, records(old_r)[q].relative_path));
                                lemma_lt_trans(info@.relative_path, old_r[pos as int]@.relative_path, info@.relative_path);
                            }
                        }
                    }
                }
                r.insert(pos, info);
                proof {
                    assert forall|i: int, j: int|
                        0 <= i < j < r@.len() implies seq_lt(
                        #[trigger] records(r@)[i].relative_path,
                        #[trigger] records(r@)[j].relative_path,
                    ) by {
                        assert(records(old_r)[i].relative_path == old_r[i]@.relative_path);
                        if j < pos {
                            assert(records(old_r)[j].relative_path == old_r[j]@.relative_path);
                        } else if j == pos {
                        } else if i < pos {
                            assert(records(old_r)[j - 1].relative_path == old_r[j - 1]@.relative_path);
                            assert(seq_lt(info@.relative_path, old_r[pos as int]@.relative_path));
                            if j - 1 > pos {
                                assert(records(old_r)[pos as int].relative_path == old_r[pos as int]@.relative_path);
                                lemma_lt_trans(info@.relative_path, old_r[pos as int]@.relative_path, old_r[j - 1]@.relative_path);
                            }
                            lemma_lt_trans(old_r[i]@.relative_path, info@.relative_path, old_r[j - 1]@.relative_path);
                        } else if i == pos {
                            assert(records(old_r)[j - 1].relative_path == old_r[j - 1]@.relative_path);
                            if j - 1 > pos {
                                assert(records(old_r)[pos as int].relative_path == old_r[pos as int]@.relative_path);
                                lemma_lt_trans(info@.relative_path, old_r[pos as int]@.relative_path, old_r[j - 1]@.relative_path);
                            }
                        } else {
                            assert(records(old_r)[i - 1].relative_path == old_r[i - 1]@.relative_path);
                            assert(records(old_r)[j - 1].relative_path == old_r[j - 1]@.relative_path);
                        }
                    }
                    assert forall|i: int| 0 <= i < r@.len() implies from_kept(
                        #[trigger] records(r@)[i],
                        entries@,
                        custom,
                        git,
                    ) by {
                        if i < pos {
                            assert(records(r@)[i] == records(old_r)[i]);
                        } else if i == pos {
                            assert(kept(entries@[k as int], custom, git));
                            assert(records(r@)[i] == record_of(entries@[k as int]));
                            assert(first_with_path(entries@, k as int, custom, git));
                        } else {
                            assert(records(r@)[i] == records(old_r)[i - 1]);
                        }
                    }
                    assert forall|i: int|
                        0 <= i < r@.len() && extension_of((#[trigger] records(r@)[i]).name).len() == 0
                        implies records(r@)[i].ext.len() == 0 && records(r@)[i].language == "Unknown"@ by {
                        if i < pos {
                            assert(records(r@)[i] == records(old_r)[i]);
                        } else if i > pos {
                            assert(records(r@)[i] == records(old_r)[i - 1]);
                        } else {
                            assert(records(r@)[i] == info@);
                        }
                    }
                    assert forall|k2: int|
                        0 <= k2 < k + 1 && kept(#[trigger] entries@[k2], custom, git) implies has_relative_path(
                        records(r@),
                        record_of(entries@[k2]).relative_path,
                    ) by {
                        if k2 < k {
                            let i0 = choose|i: int|
                                0 <= i < old_r.len() && (#[trigger] records(old_r)[i]).relative_path
                                    == record_of(entries@[k2]).relative_path;
                            if i0 < pos {
                                assert(records(r@)[i0] == records(old_r)[i0]);
                            } else {
                                assert(records(r@)[i0 + 1] == records(old_r)[i0]);
                            }
                        } else {
                            assert(records(r@)[pos as int] == info@);
                        }
                    }
                }
            }
        }
        k += 1;
    }
    r
}

/// A scan over no entries, as for a root that does not exist, has no records.
pub proof fn lemma_no_entries_no_records(
    r: Seq<FileRecord>,
    custom: Seq<Seq<char>>,
    gitignore: Seq<Seq<char>>,
)
    requires
        forall|i: int| 0 <= i < r.len() ==> from_kept(#[trigger] r[i], Seq::<WalkEntry>::empty(), custom, gitignore),
    ensures
        r.len() == 0,
{
    if r.len() > 0 {
        assert(from_kept(r[0], Seq::<WalkEntry>::empty(), custom, gitignore));
    }
}

} // verus!
