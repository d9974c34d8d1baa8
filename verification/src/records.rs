//! Allocation record files: which files of the records directory hold a
//! record, the newest first, and the format versions that can be read.
use vstd::prelude::*;
use crate::civil::{jiff_date_strptime_ymd, parse_date_ymd};
use crate::text::{
    chars_of, compare_text, lemma_text_less_irreflexive, lemma_text_less_total,
    lemma_text_less_transitive, string_from_range, text_less, Precedence,
};

verus! {

/// The format version of the allocation record files that this library reads.
pub const ALLOCATION_RECORD_FORMAT_VERSION: u64 = 1;

/// What the allocation diagram asks for: a category, and how many of the latest
/// records to show.
#[derive(Debug, Clone, Copy, PartialEq, Eq, Structural)]
pub struct GetAllocDiagramDataArgs {
    pub category_id: i64,
    pub days: u32,
}

/// The name of a record file: a stem, then the extension `.ron`.
pub open spec fn has_ron_extension(name: Seq<char>) -> bool {
    &&& name.len() > 4
    &&& name[name.len() - 4] == '.'
    &&& name[name.len() - 3] == 'r'
    &&& name[name.len() - 2] == 'o'
    &&& name[name.len() - 1] == 'n'
}

/// The stem of a file name with the extension `.ron`.
pub open spec fn ron_stem(name: Seq<char>) -> Seq<char> {
    name.take(name.len() - 4)
}

/// A record file: its extension is `.ron` and its stem a date as `%Y-%m-%d`.
pub open spec fn is_record_file(name: Seq<char>) -> bool {
    has_ron_extension(name) && jiff_date_strptime_ymd(ron_stem(name)) is Ok
}

/// The record files among `names`, in their order.
pub open spec fn record_files(names: Seq<Seq<char>>) -> Seq<Seq<char>>
    decreases names.len(),
{
    if names.len() == 0 {
        Seq::empty()
    } else if is_record_file(names.last()) {
        record_files(names.drop_last()).push(names.last())
    } else {
        record_files(names.drop_last())
    }
}

/// The record files of `s` whose stem is `k`, in their order.
pub open spec fn with_stem(s: Seq<Seq<char>>, k: Seq<char>) -> Seq<Seq<char>>
    decreases s.len(),
{
    if s.len() == 0 {
        Seq::empty()
    } else if ron_stem(s.last()) == k {
        with_stem(s.drop_last(), k).push(s.last())
    } else {
        with_stem(s.drop_last(), k)
    }
}

/// The files of `s` are ordered newest first: by stem, descending.
pub open spec fn newest_first(s: Seq<Seq<char>>) -> bool {
    forall|i: int, j: int| 0 <= i < j < s.len() ==> !text_less(ron_stem(#[trigger] s[i]), ron_stem(#[trigger] s[j]))
}

/// `sorted` holds the files of `files`, newest first, the files of one stem in
/// their order.
pub open spec fn sorted_newest_first(sorted: Seq<Seq<char>>, files: Seq<Seq<char>>) -> bool {
    &&& newest_first(sorted)
    &&& forall|k: Seq<char>| #[trigger] with_stem(sorted, k) == with_stem(files, k)
}

proof fn lemma_with_stem_concat(a: Seq<Seq<char>>, b: Seq<Seq<char>>, k: Seq<char>)
    ensures
        with_stem(a + b, k) == with_stem(a, k) + with_stem(b, k),
    decreases b.len(),
{
    if b.len() == 0 {
        assert(a + b =~= a);
        assert(with_stem(a, k) + with_stem(b, k) =~= with_stem(a, k));
    } else {
        assert((a + b).drop_last() =~= a + b.drop_last());
        lemma_with_stem_concat(a, b.drop_last(), k);
        assert((a + b).last() == b.last());
        if ron_stem(b.last()) == k {
            assert(with_stem(a, k) + with_stem(b, k) =~= (with_stem(a, k) + with_stem(b.drop_last(), k)).push(b.last()));
        }
    }
}

proof fn lemma_with_stem_none(b: Seq<Seq<char>>, k: Seq<char>)
    requires
        forall|i: int| 0 <= i < b.len() ==> ron_stem(#[trigger] b[i]) != k,
    ensures
        with_stem(b, k) == Seq::<Seq<char>>::empty(),
    decreases b.len(),
{
    if b.len() > 0 {
        assert(ron_stem(b[b.len() - 1]) != k);
        lemma_with_stem_none(b.drop_last(), k);
    }
}

/// A record file with its stem.
struct RecordFile {
    name: String,
    stem: String,
}

/// The names of record files.
spec fn file_names(files: Seq<RecordFile>) -> Seq<Seq<char>> {
    files.map_values(|f: RecordFile| f.name@)
}

/// The stem of `name` if it names a record file.
fn record_file_stem(name: &String) -> (r: Option<String>)
    ensures
        match r {
            Some(stem) => is_record_file(name@) && stem@ == ron_stem(name@),
            None => !is_record_file(name@),
        },
{
    let v = chars_of(name.as_str());
    let n = v.len();
    if n > 4 && v[n - 4] == '.' && v[n - 3] == 'r' && v[n - 2] == 'o' && v[n - 1] == 'n' {
        let stem = string_from_range(&v, 0, n - 4);
        assert(stem@ =~= ron_stem(name@));
        match parse_date_ymd(stem.as_str()) {
            Ok(_) => Some(stem),
            Err(_) => None,
        }
    } else {
        None
    }
}

/// The names of the latest `limit` record files among `names` (the files of
/// the records directory): the files whose extension is `.ron` and whose stem is
/// a date as `%Y-%m-%d`, ordered by stem, newest first, the first `limit` kept.
pub fn latest_record_files(names: &Vec<String>, limit: usize) -> (r: Vec<String>)
    ensures
        exists|sorted: Seq<Seq<char>>| {
            &&& #[trigger] sorted_newest_first(sorted, record_files(names.deep_view()))
            &&& r.deep_view() == sorted.take(if limit < sorted.len() { limit as int } else { sorted.len() as int })
        },
{
    let ghost input = names.deep_view();
    let mut files: Vec<RecordFile> = Vec::new();
    let ghost mut kept: Seq<Seq<char>> = Seq::empty();
    let mut i: usize = 0;
    while i < names.len()
        invariant
            i <= names.len(),
            input == names.deep_view(),
            kept == record_files(input.take(i as int)),
            newest_first(file_names(files@)),
            forall|j: int| 0 <= j < files.len() ==> (#[trigger] files@[j]).stem@ == ron_stem(files@[j].name@),
            forall|k: Seq<char>| #[trigger] with_stem(file_names(files@), k) == with_stem(kept, k),
        decreases names.len() - i,
    {
        let name = &names[i];
        assert(input.take(i as int + 1).drop_last() =~= input.take(i as int));
        assert(input.take(i as int + 1).last() == name@);
        match record_file_stem(name) {
            None => {},
            Some(stem) => {
                let ghost s = file_names(files@);
                let ghost xk = ron_stem(name@);
                let mut at: usize = 0;
                while at < files.len() && compare_text(files[at].stem.as_str(), stem.as_str()) != Precedence::Before
                    invariant
                        at <= files.len(),
                        s == file_names(files@),
                        xk == ron_stem(name@),
                        stem@ == xk,
                        forall|j: int| 0 <= j < files.len() ==> (#[trigger] files@[j]).stem@ == ron_stem(files@[j].name@),
                        forall|j: int| 0 <= j < at ==> !text_less(ron_stem(#[trigger] s[j]), xk),
                    decreases files.len() - at,
                {
                    assert(s[at as int] == files@[at as int].name@);
                    at += 1;
                }
                proof {
                    if at < files.len() {
                        assert(s[at as int] == files@[at as int].name@);
                    }
                    // every file from `at` on is older than the new one
                    assert forall|j: int| at <= j < s.len() implies text_less(ron_stem(#[trigger] s[j]), xk) by {
                        if j > at {
                            lemma_text_less_total(ron_stem(s[at as int]), ron_stem(s[j]));
                            if text_less(ron_stem(s[j]), ron_stem(s[at as int])) {
                                lemma_text_less_transitive(ron_stem(s[j]), ron_stem(s[at as int]), xk);
                            }
                        }
                    }
                }
                let ghost x = name@;
                files.insert(at, RecordFile { name: name.clone(), stem });
                proof {
                    let t = file_names(files@);
                    assert(t =~= s.take(at as int) + seq![x] + s.skip(at as int));
                    assert(s =~= s.take(at as int) + s.skip(at as int));
                    assert forall|a: int, b: int| 0 <= a < b < t.len() implies !text_less(ron_stem(#[trigger] t[a]), ron_stem(#[trigger] t[b])) by {
                        if a < at && b == at {
                            assert(t[a] == s[a]);
                        } else if a == at {
                            assert(t[b] == s[b - 1]);
                            lemma_text_less_irreflexive(xk);
                            if text_less(xk, ron_stem(s[b - 1])) {
                                lemma_text_less_transitive(xk, ron_stem(s[b - 1]), xk);
                            }
                        } else if b < at {
                            assert(t[a] == s[a] && t[b] == s[b]);
                        } else if a < at {
                            assert(t[a] == s[a] && t[b] == s[b - 1]);
                        } else {
                            assert(t[a] == s[a - 1] && t[b] == s[b - 1]);
                        }
                    }
                    assert forall|j: int| 0 <= j < files.len() implies (#[trigger] files@[j]).stem@ == ron_stem(files@[j].name@) by {}
                    assert forall|k: Seq<char>| #[trigger] with_stem(t, k) == with_stem(kept.push(x), k) by {
                        lemma_with_stem_concat(s.take(at as int) + seq![x], s.skip(at as int), k);
                        lemma_with_stem_concat(s.take(at as int), seq![x], k);
                        lemma_with_stem_concat(s.take(at as int), s.skip(at as int), k);
                        let one = with_stem(seq![x], k);
                        assert(one == (if xk == k { seq![x] } else { Seq::<Seq<char>>::empty() })) by {
                            assert(seq![x].last() == x);
                            assert(with_stem(Seq::<Seq<char>>::empty(), k) == Seq::<Seq<char>>::empty());
                            assert(seq![x].drop_last() =~= Seq::<Seq<char>>::empty());
                            assert(with_stem(seq![x].drop_last(), k) == Seq::<Seq<char>>::empty());
                            assert(Seq::<Seq<char>>::empty().push(x) =~= seq![x]);
                        }
                        let front = with_stem(s.take(at as int), k);
                        let back = with_stem(s.skip(at as int), k);
                        assert(with_stem(t, k) == front + one + back);
                        assert(with_stem(s, k) == front + back);
                        assert(kept.push(x).drop_last() =~= kept);
                        assert(kept.push(x).last() == x);
                        if k == xk {
                            assert forall|j: int| 0 <= j < s.skip(at as int).len() implies ron_stem(#[trigger] s.skip(at as int)[j]) != k by {
                                assert(s.skip(at as int)[j] == s[at + j]);
                                lemma_text_less_irreflexive(xk);
                            }
                            lemma_with_stem_none(s.skip(at as int), k);
                            assert(front + back =~= front);
                            assert(with_stem(t, k) =~= front.push(x));
                        } else {
                            assert(front + one + back =~= front + back);
                        }
                    }
                    kept = kept.push(x);
                }
            },
        }
        i += 1;
    }
    assert(input.take(names.len() as int) =~= input);
    let ghost sorted = file_names(files@);
    let count = if limit < files.len() { limit } else { files.len() };
    let mut out: Vec<String> = Vec::new();
    let mut j: usize = 0;
    while j < count
        invariant
            j <= count,
            count <= files.len(),
            sorted == file_names(files@),
            out.deep_view() == sorted.take(j as int),
        decreases count - j,
    {
        let ghost before = out.deep_view();
        out.push(files[j].name.clone());
        assert(out.deep_view() =~= before.push(sorted[j as int]));
        assert(sorted.take(j as int + 1) =~= sorted.take(j as int).push(sorted[j as int]));
        j += 1;
    }
    assert(sorted_newest_first(sorted, record_files(names.deep_view())));
    out
}

/// The record files to read for the allocation diagram: the latest
/// `args.days` record files among `names`, newest first.
pub fn get_alloc_diagram_data(args: GetAllocDiagramDataArgs, names: &Vec<String>) -> (r: Vec<String>)
    ensures
        exists|sorted: Seq<Seq<char>>| {
            &&& #[trigger] sorted_newest_first(sorted, record_files(names.deep_view()))
            &&& r.deep_view() == sorted.take(if args.days < sorted.len() { args.days as int } else { sorted.len() as int })
        },
{
    latest_record_files(names, args.days as usize)
}

/// The error of reading a record in another format version.
#[derive(Debug, Clone, Copy, PartialEq, Eq, Structural)]
pub struct UnsupportedFormatVersion {
    pub found: u64,
}

impl UnsupportedFormatVersion {
    /// The text of the error, naming the record's file.
    pub fn message(&self, file: &str) -> (r: String)
        ensures
            r@ == "allocation record '"@ + file@ + "' has format version "@ + crate::text::nat_digits(self.found as nat)
                + ", but supported version is "@ + crate::text::nat_digits(ALLOCATION_RECORD_FORMAT_VERSION as nat),
    {
        let mut m = String::new();
        m.append("allocation record '");
        m.append(file);
        m.append("' has format version ");
        m.append(crate::text::u64_text(self.found).as_str());
        m.append(", but supported version is ");
        m.append(crate::text::u64_text(ALLOCATION_RECORD_FORMAT_VERSION).as_str());
        m
    }
}

/// Accepts a record of the supported format version only.
pub fn check_record_format_version(version: u64) -> (r: Result<(), UnsupportedFormatVersion>)
    ensures
        r is Ok <==> version == ALLOCATION_RECORD_FORMAT_VERSION,
        r matches Err(e) ==> e.found == version,
{
    if version != ALLOCATION_RECORD_FORMAT_VERSION {
        return Err(UnsupportedFormatVersion { found: version });
    }
    Ok(())
}

} // verus!
