//! The type aggregator: per-extension file counts and total sizes over the
//! records of one or more scans.

use vstd::prelude::*;
use crate::scanner::{records, FileInfo, FileRecord};
use crate::text::str_eq;

verus! {

/// One bucket of the statistics: the files that share an extension.
#[derive(Debug)]
pub struct FileTypeInfo {
    pub ext: String,
    pub language: String,
    pub count: usize,
    pub total_size: u64,
}

/// What a `FileTypeInfo` holds.
pub ghost struct TypeSummary {
    pub ext: Seq<char>,
    pub language: Seq<char>,
    pub count: nat,
    pub total_size: nat,
}

impl View for FileTypeInfo {
    type V = TypeSummary;

    open spec fn view(&self) -> TypeSummary {
        TypeSummary {
            ext: self.ext@,
            language: self.language@,
            count: self.count as nat,
            total_size: self.total_size as nat,
        }
    }
}

/// The number of files of `s` with extension `x`.
pub open spec fn count_ext(s: Seq<FileRecord>, x: Seq<char>) -> nat
    decreases s.len(),
{
    if s.len() == 0 {
        0
    } else {
        count_ext(s.drop_last(), x) + if s.last().ext == x {
            1nat
        } else {
            0nat
        }
    }
}

/// The total size of the files of `s` with extension `x`.
pub open spec fn size_ext(s: Seq<FileRecord>, x: Seq<char>) -> nat
    decreases s.len(),
{
    if s.len() == 0 {
        0
    } else {
        size_ext(s.drop_last(), x) + if s.last().ext == x {
            s.last().size as nat
        } else {
            0nat
        }
    }
}

/// The language of the first file of `s` with extension `x`.
pub open spec fn first_language(s: Seq<FileRecord>, x: Seq<char>) -> Seq<char>
    decreases s.len(),
{
    if s.len() == 0 {
        seq![]
    } else if count_ext(s.drop_last(), x) > 0 {
        first_language(s.drop_last(), x)
    } else {
        s.last().language
    }
}

/// The position of the first file of `s` with extension `x`.
pub open spec fn first_index(s: Seq<FileRecord>, x: Seq<char>) -> int
    decreases s.len(),
{
    if s.len() == 0 {
        0
    } else if count_ext(s.drop_last(), x) > 0 {
        first_index(s.drop_last(), x)
    } else {
        s.len() - 1
    }
}

/// Buckets in the order in which their extensions first occur among `s`.
pub open spec fn in_first_order(t: Seq<TypeSummary>, s: Seq<FileRecord>) -> bool {
    forall|i: int, j: int|
        0 <= i < j < t.len() ==> first_index(s, (#[trigger] t[i]).ext) < first_index(
            s,
            (#[trigger] t[j]).ext,
        )
}

/// Buckets with equal counts come in the order in which their extensions
/// first occur among `s`.
pub open spec fn ties_in_first_order(t: Seq<TypeSummary>, s: Seq<FileRecord>) -> bool {
    forall|i: int, j: int|
        0 <= i < j < t.len() && (#[trigger] t[i]).count == (#[trigger] t[j]).count
            ==> first_index(s, t[i].ext) < first_index(s, t[j].ext)
}

proof fn lemma_first_index_below(s: Seq<FileRecord>, x: Seq<char>)
    requires
        s.len() > 0,
    ensures
        0 <= first_index(s, x) < s.len(),
    decreases s.len(),
{
    if s.len() > 1 && count_ext(s.drop_last(), x) > 0 {
        lemma_first_index_below(s.drop_last(), x);
    }
}

/// The bucket is right for the files `s`: a non-empty extension that some
/// file has, with their count, their total size and the first one's language.
pub open spec fn bucket_of(b: TypeSummary, s: Seq<FileRecord>) -> bool {
    &&& b.ext.len() > 0
    &&& count_ext(s, b.ext) > 0
    &&& b.count == count_ext(s, b.ext)
    &&& b.total_size == size_ext(s, b.ext)
    &&& b.language == first_language(s, b.ext)
}

/// Some bucket of `t` has extension `x`.
pub open spec fn has_bucket(t: Seq<TypeSummary>, x: Seq<char>) -> bool {
    exists|i: int| 0 <= i < t.len() && (#[trigger] t[i]).ext == x
}

/// The statistics of the files `s`: one right bucket for each non-empty
/// extension that occurs, none twice.
pub open spec fn summarizes(t: Seq<TypeSummary>, s: Seq<FileRecord>) -> bool {
    &&& forall|i: int| 0 <= i < t.len() ==> bucket_of(#[trigger] t[i], s)
    &&& forall|i: int, j: int| 0 <= i < j < t.len() ==> (#[trigger] t[i]).ext != (#[trigger] t[j]).ext
    &&& forall|k: int| 0 <= k < s.len() && (#[trigger] s[k]).ext.len() > 0 ==> has_bucket(t, s[k].ext)
}

/// Buckets in descending order of file count.
pub open spec fn by_count_desc(t: Seq<TypeSummary>) -> bool {
    forall|i: int, j: int| 0 <= i < j < t.len() ==> (#[trigger] t[i]).count >= (#[trigger] t[j]).count
}

/// The views of a list of buckets.
pub open spec fn summaries(v: Seq<FileTypeInfo>) -> Seq<TypeSummary> {
    v.map_values(|b: FileTypeInfo| b@)
}

/// The records of several scans, one after another.
pub open spec fn flatten_scans(scans: Seq<Vec<FileInfo>>) -> Seq<FileRecord>
    decreases scans.len(),
{
    if scans.len() == 0 {
        seq![]
    } else {
        flatten_scans(scans.drop_last()) + records(scans.last()@)
    }
}

/// The total size of each extension fits in 64 bits.
pub open spec fn sizes_fit(s: Seq<FileRecord>) -> bool {
    forall|x: Seq<char>| #[trigger] size_ext(s, x) <= u64::MAX
}

proof fn lemma_prefix_bounds(s: Seq<FileRecord>, j: int, x: Seq<char>)
    requires
        0 <= j <= s.len(),
    ensures
        size_ext(s.subrange(0, j), x) <= size_ext(s, x),
        count_ext(s.subrange(0, j), x) <= j,
    decreases s.len() - j,
{
    if j < s.len() {
        lemma_prefix_bounds(s, j + 1, x);
        assert(s.subrange(0, j + 1).drop_last() == s.subrange(0, j));
    } else {
        assert(s.subrange(0, j) == s);
    }
    lemma_count_le_len(s.subrange(0, j), x);
}

proof fn lemma_count_le_len(s: Seq<FileRecord>, x: Seq<char>)
    ensures
        count_ext(s, x) <= s.len(),
    decreases s.len(),
{
    if s.len() > 0 {
        lemma_count_le_len(s.drop_last(), x);
    }
}

/// A copy of a record.
pub fn copy_info(f: &FileInfo) -> (r: FileInfo)
    ensures
        r@ == f@,
{
    FileInfo {
        path: f.path.clone(),
        relative_path: f.relative_path.clone(),
        name: f.name.clone(),
        ext: f.ext.clone(),
        size: f.size,
        language: f.language.clone(),
    }
}

/// The records of several scans in one list, scan after scan.
pub fn flatten(scans: &Vec<Vec<FileInfo>>) -> (r: Vec<FileInfo>)
    ensures
        records(r@) == flatten_scans(scans@),
{
    let mut r: Vec<FileInfo> = Vec::new();
    let mut i: usize = 0;
    while i < scans.len()
        invariant
            i <= scans@.len(),
            records(r@) == flatten_scans(scans@.subrange(0, i as int)),
        decreases scans.len() - i,
    {
        let scan = &scans[i];
        let mut j: usize = 0;
        while j < scan.len()
            invariant
                i < scans@.len(),
                scan == scans@[i as int],
                j <= scan@.len(),
                records(r@) == flatten_scans(scans@.subrange(0, i as int)) + records(
                    scan@,
                ).subrange(0, j as int),
            decreases scan.len() - j,
        {
            let f = copy_info(&scan[j]);
            proof {
                let pre = flatten_scans(scans@.subrange(0, i as int));
                assert(records(r@.push(f)) == records(r@).push(f@));
                assert(records(scan@).subrange(0, j + 1) == records(scan@).subrange(
                    0,
                    j as int,
                ).push(f@));
                assert(pre + records(scan@).subrange(0, j + 1) == (pre + records(
                    scan@,
                ).subrange(0, j as int)).push(f@));
            }
            r.push(f);
            j += 1;
        }
        proof {
            assert(records(scan@).subrange(0, scan@.len() as int) == records(scan@));
            assert(scans@.subrange(0, i + 1).drop_last() == scans@.subrange(0, i as int));
        }
        i += 1;
    }
    assert(scans@.subrange(0, scans@.len() as int) == scans@);
    r
}

proof fn lemma_count_has_file(s: Seq<FileRecord>, x: Seq<char>) -> (k: int)
    requires
        count_ext(s, x) > 0,
    ensures
        0 <= k < s.len(),
        s[k].ext == x,
    decreases s.len(),
{
    if s.last().ext == x {
        s.len() - 1
    } else {
        let k = lemma_count_has_file(s.drop_last(), x);
        assert(s[k] == s.drop_last()[k]);
        k
    }
}

proof fn lemma_no_count_no_size(s: Seq<FileRecord>, x: Seq<char>)
    requires
        count_ext(s, x) == 0,
    ensures
        size_ext(s, x) == 0,
    decreases s.len(),
{
    if s.len() > 0 {
        lemma_no_count_no_size(s.drop_last(), x);
    }
}

fn find_bucket(acc: &Vec<FileTypeInfo>, x: &str) -> (r: Option<usize>)
    ensures
        r matches Some(i) ==> i < acc@.len() && acc@[i as int].ext@ == x@,
        r is None ==> !has_bucket(summaries(acc@), x@),
{
    let mut i: usize = 0;
    while i < acc.len()
        invariant
            i <= acc@.len(),
            forall|j: int| 0 <= j < i ==> acc@[j].ext@ != x@,
        decreases acc.len() - i,
    {
        if str_eq(acc[i].ext.as_str(), x) {
            return Some(i);
        }
        i += 1;
    }
    proof {
        assert forall|j: int| 0 <= j < acc@.len() implies (#[trigger] summaries(acc@)[j]).ext != x@ by {
            assert(summaries(acc@)[j] == acc@[j]@);
        }
    }
    None
}

/// One bucket for each non-empty extension among `files`, in the order in
/// which the extensions first occur.
fn gather(files: &Vec<FileInfo>) -> (r: Vec<FileTypeInfo>)
    requires
        sizes_fit(records(files@)),
    ensures
        summarizes(summaries(r@), records(files@)),
        in_first_order(summaries(r@), records(files@)),
{
    let ghost fs = records(files@);
    let mut acc: Vec<FileTypeInfo> = Vec::new();
    let mut j: usize = 0;
    while j < files.len()
        invariant
            fs == records(files@),
            sizes_fit(fs),
            j <= files@.len(),
            summarizes(summaries(acc@), fs.subrange(0, j as int)),
            in_first_order(summaries(acc@), fs.subrange(0, j as int)),
        decreases files.len() - j,
    {
        let f = &files[j];
        let ghost seen = fs.subrange(0, j as int);
        let ghost seen2 = fs.subrange(0, j + 1);
        let ghost old_acc = summaries(acc@);
        proof {
            assert(seen2.drop_last() == seen);
            assert(seen2.last() == f@);
            assert(fs[j as int] == f@);
        }
        if f.ext.as_str().unicode_len() > 0 {
            match find_bucket(&acc, f.ext.as_str()) {
                Some(i) => {
                    proof {
                        assert(old_acc[i as int] == acc@[i as int]@);
                        assert(bucket_of(old_acc[i as int], seen));
                        lemma_prefix_bounds(fs, j as int, f.ext@);
                        lemma_prefix_bounds(fs, j + 1, f.ext@);
                        assert(size_ext(fs, f.ext@) <= u64::MAX);
                    }
                    let b = FileTypeInfo {
                        ext: acc[i].ext.clone(),
                        language: acc[i].language.clone(),
                        count: acc[i].count + 1,
                        total_size: acc[i].total_size + f.size,
                    };
                    acc.set(i, b);
                    proof {
                        let t = summaries(acc@);
                        assert forall|a: int, c: int| 0 <= a < c < t.len() implies first_index(seen2, (#[trigger] t[a]).ext) < first_index(seen2, (#[trigger] t[c]).ext) by {
                            assert(t[a].ext == old_acc[a].ext);
                            assert(t[c].ext == old_acc[c].ext);
                            assert(bucket_of(old_acc[a], seen));
                            assert(bucket_of(old_acc[c], seen));
                        }
                        assert forall|q: int| 0 <= q < t.len() implies bucket_of(#[trigger] t[q], seen2) by {
                            assert(old_acc[q] == t[q] || q == i);
                            assert(bucket_of(old_acc[q], seen));
                        }
                        assert forall|a: int, c: int| 0 <= a < c < t.len() implies (#[trigger] t[a]).ext != (#[trigger] t[c]).ext by {
                            assert(t[a].ext == old_acc[a].ext);
                            assert(t[c].ext == old_acc[c].ext);
                        }
                        assert forall|k: int| 0 <= k < seen2.len() && (#[trigger] seen2[k]).ext.len() > 0 implies has_bucket(t, seen2[k].ext) by {
                            if k < j {
                                assert(seen2[k] == seen[k]);
                                let q = choose|q: int| 0 <= q < old_acc.len() && (#[trigger] old_acc[q]).ext == seen[k].ext;
                                assert(t[q].ext == old_acc[q].ext);
                            } else {
                                assert(t[i as int].ext == f.ext@);
                            }
                        }
                    }
                },
                None => {
                    proof {
                        if count_ext(seen, f.ext@) > 0 {
                            let k = lemma_count_has_file(seen, f.ext@);
                            assert(has_bucket(old_acc, seen[k].ext));
                        }
                        lemma_no_count_no_size(seen, f.ext@);
                    }
                    let b = FileTypeInfo {
                        ext: f.ext.clone(),
                        language: f.language.clone(),
                        count: 1,
                        total_size: f.size,
                    };
                    acc.push(b);
                    proof {
                        let t = summaries(acc@);
                        assert(t == old_acc.push(b@));
                        assert forall|a: int, c: int| 0 <= a < c < t.len() implies first_index(seen2, (#[trigger] t[a]).ext) < first_index(seen2, (#[trigger] t[c]).ext) by {
                            assert(t[a] == old_acc[a]);
                            assert(bucket_of(old_acc[a], seen));
                            if c < old_acc.len() {
                                assert(t[c] == old_acc[c]);
                                assert(bucket_of(old_acc[c], seen));
                            } else {
                                lemma_first_index_below(seen, t[a].ext);
                                assert(first_index(seen2, t[c].ext) == j);
                            }
                        }
                        assert forall|q: int| 0 <= q < t.len() implies bucket_of(#[trigger] t[q], seen2) by {
                            if q < old_acc.len() {
                                assert(bucket_of(old_acc[q], seen));
                            }
                        }
                        assert forall|a: int, c: int| 0 <= a < c < t.len() implies (#[trigger] t[a]).ext != (#[trigger] t[c]).ext by {
                            if c == old_acc.len() {
                                assert(t[a] == old_acc[a]);
                            }
                        }
                        assert forall|k: int| 0 <= k < seen2.len() && (#[trigger] seen2[k]).ext.len() > 0 implies has_bucket(t, seen2[k].ext) by {
                            if k < j {
                                assert(seen2[k] == seen[k]);
                                let q = choose|q: int| 0 <= q < old_acc.len() && (#[trigger] old_acc[q]).ext == seen[k].ext;
                                assert(t[q] == old_acc[q]);
                            } else {
                                assert(t[old_acc.len() as int].ext == f.ext@);
                            }
                        }
                    }
                },
            }
        } else {
            proof {
                let t = old_acc;
                assert forall|q: int| 0 <= q < t.len() implies bucket_of(#[trigger] t[q], seen2) by {
                    assert(bucket_of(t[q], seen));
                }
                assert forall|a: int, c: int| 0 <= a < c < t.len() implies first_index(seen2, (#[trigger] t[a]).ext) < first_index(seen2, (#[trigger] t[c]).ext) by {
                    assert(bucket_of(t[a], seen));
                    assert(bucket_of(t[c], seen));
                }
                assert forall|k: int| 0 <= k < seen2.len() && (#[trigger] seen2[k]).ext.len() > 0 implies has_bucket(t, seen2[k].ext) by {
                    assert(seen2[k] == seen[k]);
                }
            }
        }
        j += 1;
    }
    assert(fs.subrange(0, files@.len() as int) == fs);
    acc
}

/// The buckets of `acc` in descending order of count; buckets with equal
/// counts keep their order.
#[verifier::rlimit(60)]
#[verifier::spinoff_prover]
fn sort_by_count_desc(acc: Vec<FileTypeInfo>, s: Ghost<Seq<FileRecord>>) -> (r: Vec<FileTypeInfo>)
    requires
        summarizes(summaries(acc@), s@),
        in_first_order(summaries(acc@), s@),
    ensures
        summarizes(summaries(r@), s@),
        by_count_desc(summaries(r@)),
        ties_in_first_order(summaries(r@), s@),
{
    let ghost orig = summaries(acc@);
    let mut acc = acc;
    let mut out: Vec<FileTypeInfo> = Vec::new();
    let mut m: usize = 0;
    let total = acc.len();
    while acc.len() > 0
        invariant
            total == orig.len(),
            m + acc@.len() == total,
            summaries(acc@) == orig.subrange(m as int, total as int),
            summarizes(orig, s@),
            forall|q: int| 0 <= q < out@.len() ==> bucket_of(#[trigger] summaries(out@)[q], s@),
            forall|a: int, c: int|
                0 <= a < c < out@.len() ==> (#[trigger] summaries(out@)[a]).ext != (
                #[trigger] summaries(out@)[c]).ext,
            forall|q: int|
                0 <= q < out@.len() ==> exists|p: int|
                    0 <= p < m && (#[trigger] orig[p]).ext == (#[trigger] summaries(out@)[q]).ext,
            forall|p: int| 0 <= p < m ==> has_bucket(summaries(out@), (#[trigger] orig[p]).ext),
            by_count_desc(summaries(out@)),
            in_first_order(orig, s@),
            ties_in_first_order(summaries(out@), s@),
        decreases acc.len(),
    {
        let ghost before = summaries(acc@);
        let b = acc.remove(0);
        proof {
            assert(b@ == before[0]);
            assert(before[0] == orig[m as int]);
            assert(summaries(acc@) == before.drop_first());
            assert(summaries(acc@) == orig.subrange(m + 1, total as int));
        }
        let mut pos: usize = 0;
        while pos < out.len() && out[pos].count >= b.count
            invariant
                pos <= out@.len(),
                forall|q: int| 0 <= q < pos ==> out@[q].count >= b.count,
            decreases out.len() - pos,
        {
            pos += 1;
        }
        let ghost old_out = summaries(out@);
        out.insert(pos, b);
        proof {
            let t = summaries(out@);
            assert(t == old_out.insert(pos as int, b@));
            assert forall|q: int| 0 <= q < t.len() implies bucket_of(#[trigger] t[q], s@) by {
                if q < pos {
                    assert(t[q] == old_out[q]);
                } else if q > pos {
                    assert(t[q] == old_out[q - 1]);
                } else {
                    assert(bucket_of(orig[m as int], s@));
                }
            }
            assert forall|a: int, c: int| 0 <= a < c < t.len() implies (#[trigger] t[a]).ext != (#[trigger] t[c]).ext by {
                if a == pos || c == pos {
                    let q = if a == pos { c } else { a };
                    let oq = if q < pos { q } else { q - 1 };
                    assert(t[q] == old_out[oq]);
                    let p = choose|p: int| 0 <= p < m && (#[trigger] orig[p]).ext == (#[trigger] old_out[oq]).ext;
                    assert(orig[p].ext != orig[m as int].ext);
                } else {
                    let oa = if a < pos { a } else { a - 1 };
                    let oc = if c < pos { c } else { c - 1 };
                    assert(t[a] == old_out[oa]);
                    assert(t[c] == old_out[oc]);
                }
            }
            assert forall|q: int| 0 <= q < t.len() implies exists|p: int|
                0 <= p < m + 1 && (#[trigger] orig[p]).ext == (#[trigger] t[q]).ext by {
                if q == pos {
                    assert(orig[m as int].ext == t[q].ext);
                } else {
                    let oq = if q < pos { q } else { q - 1 };
                    assert(t[q] == old_out[oq]);
                    let p = choose|p: int| 0 <= p < m && (#[trigger] orig[p]).ext == (#[trigger] old_out[oq]).ext;
                    assert(orig[p].ext == t[q].ext);
                }
            }
            assert forall|p: int| 0 <= p < m + 1 implies has_bucket(t, (#[trigger] orig[p]).ext) by {
                if p == m {
                    assert(t[pos as int].ext == orig[p].ext);
                } else {
                    assert(has_bucket(old_out, orig[p].ext));
                    let q = choose|q: int| 0 <= q < old_out.len() && (#[trigger] old_out[q]).ext == orig[p].ext;
                    if q < pos {
                        assert(t[q] == old_out[q]);
                    } else {
                        assert(t[q + 1] == old_out[q]);
                    }
                }
            }
            assert forall|a: int, c: int|
                0 <= a < c < t.len() && (#[trigger] t[a]).count == (#[trigger] t[c]).count implies first_index(s@, t[a].ext) < first_index(s@, t[c].ext) by {
                let oa = if a < pos { a } else { a - 1 };
                let oc = if c < pos { c } else { c - 1 };
                if a != pos {
                    assert(t[a] == old_out[oa]);
                }
                if c != pos {
                    assert(t[c] == old_out[oc]);
                }
                if c == pos {
                    let p = choose|p: int| 0 <= p < m && (#[trigger] orig[p]).ext == (#[trigger] old_out[oa]).ext;
                    assert(first_index(s@, orig[p].ext) < first_index(s@, orig[m as int].ext));
                } else if a == pos {
                    assert(out@[c].count < b.count) by {
                        assert(old_out[pos as int].count < b@.count);
                        if oc > pos {
                            assert(old_out[pos as int].count >= old_out[oc].count);
                        }
                    }
                }
            }
            assert forall|a: int, c: int| 0 <= a < c < t.len() implies (#[trigger] t[a]).count >= (#[trigger] t[c]).count by {
                let oa = if a < pos { a } else { a - 1 };
                let oc = if c < pos { c } else { c - 1 };
                if a != pos {
                    assert(t[a] == old_out[oa]);
                }
                if c != pos {
                    assert(t[c] == old_out[oc]);
                }
                if a == pos && pos < old_out.len() {
                    assert(old_out[pos as int].count >= old_out[oc].count);
                }
                if c == pos {
                    assert(out@[a].count >= b.count);
                }
                if a < pos && c > pos {
                    assert(out@[a].count >= b.count);
                }
            }
        }
        m = m + 1;
    }
    proof {
        let t = summaries(out@);
        assert forall|k: int| 0 <= k < s@.len() && (#[trigger] s@[k]).ext.len() > 0 implies has_bucket(t, s@[k].ext) by {
            let p = choose|p: int| 0 <= p < orig.len() && (#[trigger] orig[p]).ext == s@[k].ext;
            assert(has_bucket(t, orig[p].ext));
        }
    }
    out
}

/// `a` comes before `b` in the statistics: a larger count, or an equal count
/// and an extension that occurs first.
pub open spec fn comes_before(a: TypeSummary, b: TypeSummary, s: Seq<FileRecord>) -> bool {
    a.count > b.count || (a.count == b.count && first_index(s, a.ext) < first_index(s, b.ext))
}

proof fn lemma_sorted_same_members_equal(a: Seq<TypeSummary>, b: Seq<TypeSummary>, s: Seq<FileRecord>)
    requires
        forall|i: int, j: int| 0 <= i < j < a.len() ==> comes_before(#[trigger] a[i], #[trigger] a[j], s),
        forall|i: int, j: int| 0 <= i < j < b.len() ==> comes_before(#[trigger] b[i], #[trigger] b[j], s),
        forall|i: int| 0 <= i < a.len() ==> b.contains(#[trigger] a[i]),
        forall|j: int| 0 <= j < b.len() ==> a.contains(#[trigger] b[j]),
    ensures
        a == b,
    decreases a.len(),
{
    if a.len() == 0 {
        if b.len() > 0 {
            assert(a.contains(b[0]));
        }
        assert(a =~= b);
    } else if b.len() == 0 {
        assert(b.contains(a[0]));
    } else {
        assert(b.contains(a[0]));
        assert(a.contains(b[0]));
        let j = choose|j: int| 0 <= j < b.len() && b[j] == a[0];
        let i = choose|i: int| 0 <= i < a.len() && a[i] == b[0];
        if i > 0 && j > 0 {
            assert(comes_before(a[0], a[i], s));
            assert(comes_before(b[0], b[j], s));
            assert(false);
        }
        assert(a[0] == b[0]);
        let a1 = a.drop_first();
        let b1 = b.drop_first();
        assert forall|k: int| 0 <= k < a1.len() implies b1.contains(#[trigger] a1[k]) by {
            assert(a1[k] == a[k + 1]);
            assert(b.contains(a[k + 1]));
            let q = choose|q: int| 0 <= q < b.len() && b[q] == a[k + 1];
            if q == 0 {
                assert(comes_before(a[0], a[k + 1], s));
                assert(false);
            }
            assert(b1[q - 1] == a1[k]);
        }
        assert forall|k: int| 0 <= k < b1.len() implies a1.contains(#[trigger] b1[k]) by {
            assert(b1[k] == b[k + 1]);
            assert(a.contains(b[k + 1]));
            let q = choose|q: int| 0 <= q < a.len() && a[q] == b[k + 1];
            if q == 0 {
                assert(comes_before(b[0], b[k + 1], s));
                assert(false);
            }
            assert(a1[q - 1] == b1[k]);
        }
        assert forall|x: int, y: int| 0 <= x < y < a1.len() implies comes_before(#[trigger] a1[x], #[trigger] a1[y], s) by {
            assert(a1[x] == a[x + 1] && a1[y] == a[y + 1]);
        }
        assert forall|x: int, y: int| 0 <= x < y < b1.len() implies comes_before(#[trigger] b1[x], #[trigger] b1[y], s) by {
            assert(b1[x] == b[x + 1] && b1[y] == b[y + 1]);
        }
        lemma_sorted_same_members_equal(a1, b1, s);
        assert(a =~= seq![a[0]] + a1);
        assert(b =~= seq![b[0]] + b1);
    }
}

proof fn lemma_members(t: Seq<TypeSummary>, u: Seq<TypeSummary>, s: Seq<FileRecord>)
    requires
        summarizes(t, s),
        summarizes(u, s),
    ensures
        forall|i: int| 0 <= i < t.len() ==> u.contains(#[trigger] t[i]),
{
    assert forall|i: int| 0 <= i < t.len() implies u.contains(#[trigger] t[i]) by {
        assert(bucket_of(t[i], s));
        let k = lemma_count_has_file(s, t[i].ext);
        assert(has_bucket(u, s[k].ext));
        let q = choose|q: int| 0 <= q < u.len() && (#[trigger] u[q]).ext == s[k].ext;
        assert(bucket_of(u[q], s));
        assert(u[q] == t[i]);
    }
}

/// The statistics are fully determined by the records: two bucket lists that
/// are both right, in descending count order, with ties in order of first
/// occurrence, are the same list. So repeated runs agree, ties included.
pub proof fn lemma_statistics_unique(t: Seq<TypeSummary>, u: Seq<TypeSummary>, s: Seq<FileRecord>)
    requires
        summarizes(t, s),
        by_count_desc(t),
        ties_in_first_order(t, s),
        summarizes(u, s),
        by_count_desc(u),
        ties_in_first_order(u, s),
    ensures
        t == u,
{
    lemma_members(t, u, s);
    lemma_members(u, t, s);
    assert forall|i: int, j: int| 0 <= i < j < t.len() implies comes_before(#[trigger] t[i], #[trigger] t[j], s) by {
        assert(t[i].count >= t[j].count);
    }
    assert forall|i: int, j: int| 0 <= i < j < u.len() implies comes_before(#[trigger] u[i], #[trigger] u[j], s) by {
        assert(u[i].count >= u[j].count);
    }
    lemma_sorted_same_members_equal(t, u, s);
}

/// The sum of the counts of the buckets.
pub open spec fn counts_total(t: Seq<TypeSummary>) -> nat
    decreases t.len(),
{
    if t.len() == 0 {
        0
    } else {
        counts_total(t.drop_last()) + t.last().count
    }
}

/// The number of records of `s` that have an extension.
pub open spec fn with_extension(s: Seq<FileRecord>) -> nat
    decreases s.len(),
{
    if s.len() == 0 {
        0
    } else {
        with_extension(s.drop_last()) + if s.last().ext.len() > 0 {
            1nat
        } else {
            0nat
        }
    }
}

spec fn count_sum(t: Seq<TypeSummary>, s: Seq<FileRecord>) -> nat
    decreases t.len(),
{
    if t.len() == 0 {
        0
    } else {
        count_sum(t.drop_last(), s) + count_ext(s, t.last().ext)
    }
}

spec fn occurrences(t: Seq<TypeSummary>, y: Seq<char>) -> nat
    decreases t.len(),
{
    if t.len() == 0 {
        0
    } else {
        occurrences(t.drop_last(), y) + if t.last().ext == y {
            1nat
        } else {
            0nat
        }
    }
}

proof fn lemma_count_sum_push(t: Seq<TypeSummary>, s: Seq<FileRecord>, r: FileRecord)
    ensures
        count_sum(t, s.push(r)) == count_sum(t, s) + occurrences(t, r.ext),
    decreases t.len(),
{
    assert(s.push(r).drop_last() == s);
    if t.len() > 0 {
        lemma_count_sum_push(t.drop_last(), s, r);
    }
}

proof fn lemma_occurrences_distinct(t: Seq<TypeSummary>, y: Seq<char>)
    requires
        forall|i: int, j: int| 0 <= i < j < t.len() ==> (#[trigger] t[i]).ext != (#[trigger] t[j]).ext,
    ensures
        occurrences(t, y) == if has_bucket(t, y) { 1nat } else { 0nat },
    decreases t.len(),
{
    if t.len() > 0 {
        let t0 = t.drop_last();
        assert forall|i: int, j: int| 0 <= i < j < t0.len() implies (#[trigger] t0[i]).ext != (#[trigger] t0[j]).ext by {
            assert(t0[i] == t[i] && t0[j] == t[j]);
        }
        lemma_occurrences_distinct(t0, y);
        if has_bucket(t, y) {
            let q = choose|q: int| 0 <= q < t.len() && (#[trigger] t[q]).ext == y;
            if q < t.len() - 1 {
                assert(t0[q] == t[q]);
                assert(t.last().ext != y);
            }
        } else {
            if has_bucket(t0, y) {
                let q = choose|q: int| 0 <= q < t0.len() && (#[trigger] t0[q]).ext == y;
                assert(t[q] == t0[q]);
            }
            assert(t.last() == t[t.len() - 1]);
        }
    }
}

proof fn lemma_count_sum_covers(t: Seq<TypeSummary>, s: Seq<FileRecord>)
    requires
        forall|i: int, j: int| 0 <= i < j < t.len() ==> (#[trigger] t[i]).ext != (#[trigger] t[j]).ext,
        forall|i: int| 0 <= i < t.len() ==> (#[trigger] t[i]).ext.len() > 0,
        forall|k: int| 0 <= k < s.len() && (#[trigger] s[k]).ext.len() > 0 ==> has_bucket(t, s[k].ext),
    ensures
        count_sum(t, s) == with_extension(s),
    decreases s.len(),
{
    if s.len() == 0 {
        lemma_count_sum_empty(t, s);
    } else {
        let s0 = s.drop_last();
        assert forall|k: int| 0 <= k < s0.len() && (#[trigger] s0[k]).ext.len() > 0 implies has_bucket(t, s0[k].ext) by {
            assert(s0[k] == s[k]);
        }
        lemma_count_sum_covers(t, s0);
        assert(s0.push(s.last()) == s);
        lemma_count_sum_push(t, s0, s.last());
        lemma_occurrences_distinct(t, s.last().ext);
        assert(s.last() == s[s.len() - 1]);
        if has_bucket(t, s.last().ext) {
            let q = choose|q: int| 0 <= q < t.len() && (#[trigger] t[q]).ext == s.last().ext;
            assert(t[q].ext.len() > 0);
        }
    }
}

proof fn lemma_count_sum_empty(t: Seq<TypeSummary>, s: Seq<FileRecord>)
    requires
        s.len() == 0,
    ensures
        count_sum(t, s) == 0,
    decreases t.len(),
{
    if t.len() > 0 {
        lemma_count_sum_empty(t.drop_last(), s);
    }
}

proof fn lemma_counts_total_is_count_sum(t: Seq<TypeSummary>, s: Seq<FileRecord>)
    requires
        forall|i: int| 0 <= i < t.len() ==> bucket_of(#[trigger] t[i], s),
    ensures
        counts_total(t) == count_sum(t, s),
    decreases t.len(),
{
    if t.len() > 0 {
        let t0 = t.drop_last();
        assert forall|i: int| 0 <= i < t0.len() implies bucket_of(#[trigger] t0[i], s) by {
            assert(t0[i] == t[i]);
        }
        lemma_counts_total_is_count_sum(t0, s);
        assert(bucket_of(t[t.len() - 1], s));
    }
}

/// Every record with an extension is counted in exactly one bucket, and
/// records without one in none: the counts add up to the number of records
/// that have an extension.
pub proof fn lemma_counts_add_up(t: Seq<TypeSummary>, s: Seq<FileRecord>)
    requires
        summarizes(t, s),
    ensures
        counts_total(t) == with_extension(s),
{
    lemma_counts_total_is_count_sum(t, s);
    assert forall|i: int| 0 <= i < t.len() implies (#[trigger] t[i]).ext.len() > 0 by {
        assert(bucket_of(t[i], s));
    }
    lemma_count_sum_covers(t, s);
}

/// The statistics of a list of records: one bucket for each non-empty
/// extension, with its file count, total size and the language of its first
/// file, in descending order of file count; buckets with equal counts come in
/// the order in which their extensions first occur.
pub fn type_summary(files: &Vec<FileInfo>) -> (r: Vec<FileTypeInfo>)
    requires
        sizes_fit(records(files@)),
    ensures
        summarizes(summaries(r@), records(files@)),
        by_count_desc(summaries(r@)),
        ties_in_first_order(summaries(r@), records(files@)),
{
    let acc = gather(files);
    sort_by_count_desc(acc, Ghost(records(files@)))
}

/// The statistics over the records of several scans taken together: files
/// reachable from two roots count twice.
pub fn detect_types(scans: &Vec<Vec<FileInfo>>) -> (r: Vec<FileTypeInfo>)
    requires
        sizes_fit(flatten_scans(scans@)),
    ensures
        summarizes(summaries(r@), flatten_scans(scans@)),
        by_count_desc(summaries(r@)),
        ties_in_first_order(summaries(r@), flatten_scans(scans@)),
{
    let all = flatten(scans);
    type_summary(&all)
}

/// Files without an extension have no bucket in the statistics.
pub proof fn lemma_no_extension_no_bucket(t: Seq<TypeSummary>, s: Seq<FileRecord>)
    requires
        summarizes(t, s),
    ensures
        !has_bucket(t, seq![]),
{
    if has_bucket(t, seq![]) {
        let i = choose|i: int| 0 <= i < t.len() && (#[trigger] t[i]).ext == Seq::<char>::empty();
        assert(bucket_of(t[i], s));
    }
}

} // verus!
