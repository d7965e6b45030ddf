//! Pure pieces of the file-browsing commands: which watcher events are
//! noise, which directories a project scan skips, which files count as
//! text, how many lines a file holds, and the order a directory listing is
//! shown in.
use vstd::prelude::*;

use crate::providers::lemma_lex_le_total;
use crate::providers::lemma_lex_le_trans;
use crate::providers::lex_le;
use crate::providers::str_le;
use crate::strutil::contains_seq;
use crate::strutil::lower_of;
use crate::strutil::lowercase;
use crate::strutil::str_contains;
use crate::strutil::str_eq;

verus! {

/// One entry of a directory listing.
pub struct FileEntry {
    pub name: String,
    pub path: String,
    pub is_directory: bool,
}

pub ghost struct FileEntryV {
    pub name: Seq<char>,
    pub path: Seq<char>,
    pub is_directory: bool,
}

impl View for FileEntry {
    type V = FileEntryV;

    open spec fn view(&self) -> FileEntryV {
        FileEntryV { name: self.name@, path: self.path@, is_directory: self.is_directory }
    }
}

/// Per-file metadata of a project scan.
pub struct ProjectFileInfo {
    pub path: String,
    pub extension: String,
    pub line_count: usize,
}

/// Whether a watcher event's path is noise to be dropped: anything under a
/// version-control, package or build directory.
pub fn should_filter_watcher_path(path: &str) -> (r: bool)
    ensures
        r == (contains_seq(path@, "/.git/"@) || contains_seq(path@, "/node_modules/"@)
            || contains_seq(path@, "/target/"@)),
{
    str_contains(path, "/.git/") || str_contains(path, "/node_modules/") || str_contains(
        path,
        "/target/",
    )
}

/// Whether a directory name is skipped by project scans.
pub fn is_excluded_dir_name(name: &str) -> (r: bool)
    ensures
        r == (name@ == ".git"@ || name@ == "node_modules"@ || name@ == "target"@ || name@
            == ".auric"@),
{
    str_eq(name, ".git") || str_eq(name, "node_modules") || str_eq(name, "target") || str_eq(
        name,
        ".auric",
    )
}

/// Whether a file extension marks a text file whose lines a project scan
/// counts.
pub fn is_text_extension(ext: &str) -> (r: bool)
    ensures
        r == (ext@ == "ts"@ || ext@ == "tsx"@ || ext@ == "js"@ || ext@ == "jsx"@ || ext@ == "rs"@
            || ext@ == "py"@ || ext@ == "md"@ || ext@ == "json"@ || ext@ == "html"@ || ext@
            == "css"@ || ext@ == "toml"@ || ext@ == "yml"@ || ext@ == "yaml"@ || ext@ == "txt"@),
{
    str_eq(ext, "ts") || str_eq(ext, "tsx") || str_eq(ext, "js") || str_eq(ext, "jsx") || str_eq(
        ext,
        "rs",
    ) || str_eq(ext, "py") || str_eq(ext, "md") || str_eq(ext, "json") || str_eq(ext, "html")
        || str_eq(ext, "css") || str_eq(ext, "toml") || str_eq(ext, "yml") || str_eq(ext, "yaml")
        || str_eq(ext, "txt")
}

/// The newlines in a text.
pub open spec fn newline_count(s: Seq<char>) -> nat {
    s.filter(|c: char| c == '\n').len()
}

/// How many lines `str::lines` yields: one per newline, plus a final line
/// when the text does not end in a newline; none for empty text.
pub open spec fn line_count(s: Seq<char>) -> nat {
    if s.len() == 0 {
        0
    } else if s.last() == '\n' {
        newline_count(s)
    } else {
        newline_count(s) + 1
    }
}

/// Counts the lines of a text.
pub fn count_lines(content: &str) -> (r: usize)
    ensures
        r == line_count(content@),
{
    broadcast use Seq::lemma_filter_push;
    broadcast use Seq::lemma_filter_len_push;

    let n = content.unicode_len();
    let ghost pred = |c: char| c == '\n';
    let mut count: usize = 0;
    let mut i: usize = 0;
    proof {
        assert(content@.take(0) =~= Seq::<char>::empty());
        assert(Seq::<char>::empty().filter(pred) =~= Seq::<char>::empty());
    }
    while i < n
        invariant
            pred == (|c: char| c == '\n'),
            i <= n,
            n == content@.len(),
            count == content@.take(i as int).filter(pred).len(),
            count <= i,
        decreases n - i,
    {
        let c = content.get_char(i);
        proof {
            assert(content@.take(i + 1 as int) =~= content@.take(i as int).push(c));
            content@.take(i as int).lemma_filter_push(c, pred);
        }
        if c == '\n' {
            count += 1;
        }
        i += 1;
    }
    proof {
        assert(content@.take(n as int) =~= content@);
    }
    if n == 0 {
        return 0;
    }
    let last = content.get_char(n - 1);
    if last == '\n' {
        count
    } else {
        proof {
            assert(content@.take(n - 1 as int).push(last) =~= content@);
            content@.take(n - 1 as int).lemma_filter_push(last, pred);
            assert(content@.take(n - 1 as int).filter(pred).len() <= content@.take(
                n - 1 as int,
            ).len()) by {
                content@.take(n - 1 as int).lemma_filter_len(pred);
            }
        }
        count + 1
    }
}

/// The order of a directory listing: directories before files, equals by
/// case-folded name.
pub open spec fn file_le(a: FileEntryV, b: FileEntryV) -> bool {
    if a.is_directory != b.is_directory {
        a.is_directory
    } else {
        lex_le(lower_of(a.name), lower_of(b.name))
    }
}

proof fn lemma_file_le_total(a: FileEntryV, b: FileEntryV)
    ensures
        file_le(a, b) || file_le(b, a),
{
    lemma_lex_le_total(lower_of(a.name), lower_of(b.name));
}

proof fn lemma_file_le_trans(a: FileEntryV, b: FileEntryV, c: FileEntryV)
    requires
        file_le(a, b),
        file_le(b, c),
    ensures
        file_le(a, c),
{
    if a.is_directory == b.is_directory && b.is_directory == c.is_directory {
        lemma_lex_le_trans(lower_of(a.name), lower_of(b.name), lower_of(c.name));
    }
}

fn file_le_exec(a: &FileEntry, b: &FileEntry) -> (r: bool)
    ensures
        r == file_le(a@, b@),
{
    if a.is_directory != b.is_directory {
        a.is_directory
    } else {
        let la = lowercase(a.name.as_str());
        let lb = lowercase(b.name.as_str());
        str_le(la.as_str(), lb.as_str())
    }
}

/// The views of a directory listing.
pub open spec fn file_views(entries: Seq<FileEntry>) -> Seq<FileEntryV> {
    entries.map_values(|e: FileEntry| e@)
}

/// Sorts a directory listing: directories first, then files, both by
/// case-folded name.
pub fn sort_file_entries(input: Vec<FileEntry>) -> (r: Vec<FileEntry>)
    ensures
        file_views(r@).to_multiset() == file_views(input@).to_multiset(),
        forall|i: int, j: int|
            0 <= i < j < r@.len() ==> file_le(#[trigger] r@[i]@, #[trigger] r@[j]@),
{
    broadcast use vstd::seq_lib::group_to_multiset_ensures;
    broadcast use vstd::multiset::group_multiset_axioms;

    let ghost orig = file_views(input@);
    let mut input = input;
    let mut out: Vec<FileEntry> = Vec::new();
    proof {
        assert(file_views(out@) =~= Seq::<FileEntryV>::empty());
        assert(Seq::<FileEntryV>::empty().to_multiset() =~= vstd::multiset::Multiset::<
            FileEntryV,
        >::empty()) by {
            Seq::<FileEntryV>::empty().to_multiset_ensures();
            assert(Seq::<FileEntryV>::empty().to_multiset().len() == 0);
        }
        assert(vstd::multiset::Multiset::<FileEntryV>::empty().add(orig.to_multiset())
            =~= orig.to_multiset());
    }
    while input.len() > 0
        invariant
            file_views(out@).to_multiset().add(file_views(input@).to_multiset())
                == orig.to_multiset(),
            forall|i: int, j: int|
                0 <= i < j < out@.len() ==> file_le(#[trigger] out@[i]@, #[trigger] out@[j]@),
            forall|i: int, j: int|
                0 <= i < out@.len() && 0 <= j < input@.len() ==> file_le(
                    #[trigger] out@[i]@,
                    #[trigger] input@[j]@,
                ),
        decreases input@.len(),
    {
        let mut m: usize = 0;
        let mut t: usize = 1;
        proof {
            lemma_file_le_total(input@[0]@, input@[0]@);
        }
        while t < input.len()
            invariant
                m < t <= input@.len(),
                input@.len() > 0,
                forall|j: int|
                    0 <= j < t ==> file_le(input@[m as int]@, #[trigger] input@[j]@),
            decreases input@.len() - t,
        {
            if !file_le_exec(&input[m], &input[t]) {
                proof {
                    lemma_file_le_total(input@[m as int]@, input@[t as int]@);
                    assert forall|j: int|
                        0 <= j < t + 1 implies file_le(
                        input@[t as int]@,
                        #[trigger] input@[j]@,
                    ) by {
                        if j < t {
                            lemma_file_le_trans(input@[t as int]@, input@[m as int]@, input@[j]@);
                        } else {
                            lemma_file_le_total(input@[t as int]@, input@[t as int]@);
                        }
                    }
                }
                m = t;
            }
            t += 1;
        }
        let ghost out_before = file_views(out@);
        let ghost input_before = file_views(input@);
        let ghost gm = m as int;
        let x = input.remove(m);
        let ghost gx = x@;
        out.push(x);
        proof {
            broadcast use vstd::seq_lib::group_to_multiset_ensures;
            broadcast use vstd::multiset::group_multiset_axioms;

            assert(file_views(out@) =~= out_before.push(gx));
            assert(file_views(input@) =~= input_before.remove(gm));
            assert(input_before[gm] == gx);
            assert(input_before.contains(gx));
            assert(out_before.push(gx).to_multiset() =~= out_before.to_multiset().insert(gx));
            assert(input_before.remove(gm).to_multiset() == input_before.to_multiset().remove(gx));
            assert(input_before.to_multiset().count(gx) > 0);
            assert(file_views(out@).to_multiset().add(file_views(input@).to_multiset())
                =~= out_before.to_multiset().add(input_before.to_multiset()));
            assert forall|i: int, j: int|
                0 <= i < out@.len() && 0 <= j < input@.len() implies file_le(
                #[trigger] out@[i]@,
                #[trigger] input@[j]@,
            ) by {
                let old_j = if j < gm {
                    j
                } else {
                    j + 1
                };
                assert(input@[j]@ == file_views(input@)[j]);
                assert(file_views(input@)[j] == input_before.remove(gm)[j]);
                assert(input_before.remove(gm)[j] == input_before[old_j]);
                if i < out@.len() - 1 {
                    assert(out@[i]@ == out_before[i]);
                } else {
                    assert(out@[i]@ == gx);
                }
            }
        }
    }
    proof {
        assert(file_views(input@).to_multiset() =~= vstd::multiset::Multiset::<
            FileEntryV,
        >::empty());
    }
    out
}

} // verus!
