use vstd::prelude::*;

use crate::pattern::{is_match, regex_matches};
use crate::text::{last_part, last_segment, replace_all, replace_str};

verus! {

/// A path with `\` written as `/`.
pub open spec fn slashed(path: Seq<char>) -> Seq<char> {
    replace_all(path, "\\"@, "/"@)
}

/// The path of a directory entry with `\` written as `/`; `None` stands for
/// an entry that could not be read.
pub fn path_replacer(path: Option<&str>) -> (r: Result<String, &'static str>)
    ensures
        match path {
            Some(p) => r matches Ok(s) && s@ == slashed(p@),
            None => r matches Err(e) && e@ == "Error reading path"@,
        },
{
    match path {
        Some(p) => {
            proof {
                reveal_strlit("\\");
            }
            Ok(replace_str(p, "\\", "/"))
        },
        None => Err("Error reading path"),
    }
}

/// The last component of the path of a directory entry; `None` stands for
/// an entry that could not be read.
pub fn get_last(path: Option<&str>) -> (r: Result<String, &'static str>)
    ensures
        match path {
            Some(p) => r matches Ok(s) && s@ == last_segment(slashed(p@), '/'),
            None => r matches Err(e) && e@ == "Error reading path"@,
        },
{
    match path {
        Some(p) => {
            proof {
                reveal_strlit("\\");
            }
            let s = replace_str(p, "\\", "/");
            Ok(last_part(s.as_str(), '/'))
        },
        None => Err("Error reading path"),
    }
}

/// The directory that the archives of a manga go to.
pub fn book_dir(book: &str) -> (r: String)
    ensures
        r@ == "./zipped/"@ + last_segment(slashed(book@), '/'),
{
    proof {
        reveal_strlit("\\");
    }
    let s = replace_str(book, "\\", "/");
    let mut r = "./zipped/".to_owned();
    r.append(last_part(s.as_str(), '/').as_str());
    r
}

/// The path of a directory under `output` moved under `zipped`.
pub open spec fn zipped_path(path: Seq<char>) -> Seq<char> {
    replace_all(slashed(path), "output"@, "zipped"@)
}

/// The path of a directory under `output` moved under `zipped`.
pub fn zipped(path: &str) -> (r: String)
    ensures
        r@ == zipped_path(path@),
{
    proof {
        reveal_strlit("\\");
        reveal_strlit("output");
    }
    let s = replace_str(path, "\\", "/");
    replace_str(s.as_str(), "output", "zipped")
}

/// The archive that a chapter directory is compressed into: its path moved
/// under `zipped`, with the archive format appended.
pub fn archive_path(chapter: &str, format: &str) -> (r: String)
    ensures
        r@ == zipped_path(chapter@) + format@,
{
    let mut r = zipped(chapter);
    r.append(format);
    r
}

/// Whether a chapter path is a `.DS_Store` file, which is not compressed;
/// `None` when the pattern cannot be compiled.
pub fn is_ds_store(path: &str) -> (r: Option<bool>)
    ensures
        r == regex_matches("\\.DS_Store"@, path@),
{
    is_match("\\.DS_Store", path)
}

/// Whether an existing archive is kept rather than made again: not when
/// forced, and only when it exists and is larger than the chapter's files.
pub fn keep_existing_archive(force: bool, exists: bool, zip_size: u64, input_size: u64) -> (r: bool)
    ensures
        r == (!force && exists && zip_size > input_size),
{
    !force && exists && zip_size > input_size
}

/// The sum of the sizes.
pub open spec fn total_size(sizes: Seq<u64>) -> nat
    decreases sizes.len(),
{
    if sizes.len() == 0 {
        0
    } else {
        total_size(sizes.drop_last()) + sizes.last() as nat
    }
}

/// The size of a chapter's files; `None` when the sum does not fit in a `u64`.
pub fn folder_size(sizes: &Vec<u64>) -> (r: Option<u64>)
    ensures
        match r {
            Some(n) => n == total_size(sizes@),
            None => total_size(sizes@) > u64::MAX,
        },
{
    let mut total: u64 = 0;
    let mut i: usize = 0;
    assert(sizes@.take(0) =~= Seq::<u64>::empty());
    while i < sizes.len()
        invariant
            i <= sizes@.len(),
            total == total_size(sizes@.take(i as int)),
        decreases sizes@.len() - i,
    {
        assert(sizes@.take(i as int + 1).drop_last() =~= sizes@.take(i as int));
        proof {
            lemma_total_size_prefix(sizes@, i as int + 1);
        }
        match total.checked_add(sizes[i]) {
            Some(t) => {
                total = t;
            },
            None => {
                return None;
            },
        }
        i = i + 1;
    }
    assert(sizes@.take(i as int) =~= sizes@);
    Some(total)
}

/// A prefix of the sizes sums to no more than all of them.
proof fn lemma_total_size_prefix(sizes: Seq<u64>, k: int)
    requires
        0 <= k <= sizes.len(),
    ensures
        total_size(sizes.take(k)) <= total_size(sizes),
    decreases sizes.len(),
{
    if k < sizes.len() {
        lemma_total_size_prefix(sizes.drop_last(), k);
        assert(sizes.drop_last().take(k) =~= sizes.take(k));
    } else {
        assert(sizes.take(k) =~= sizes);
    }
}

/// What compression does with one entry of a manga's directory.
pub enum ChapterAction {
    /// A `.DS_Store` file: left alone.
    Skip,
    /// The archive exists and holds more than the chapter's files: kept.
    Keep { archive: String },
    /// The chapter is compressed into this archive.
    Compress { archive: String },
}

/// Decides what to do with the entry at `path` of a manga's directory, given
/// whether its archive exists (looked at only when not forced), the size of
/// that archive and the size of the chapter's files: skip `.DS_Store`, keep
/// an existing archive that is larger than the files, else compress into the
/// archive; `None` when the `.DS_Store` pattern cannot be compiled.
pub fn chapter_action(
    path: &str,
    format: &str,
    force: bool,
    exists: bool,
    zip_size: u64,
    input_size: u64,
) -> (r: Option<ChapterAction>)
    ensures
        match regex_matches("\\.DS_Store"@, path@) {
            None => r is None,
            Some(true) => r matches Some(ChapterAction::Skip),
            Some(false) => if !force && exists && zip_size > input_size {
                r matches Some(ChapterAction::Keep { archive }) && archive@ == zipped_path(path@)
                    + format@
            } else {
                r matches Some(ChapterAction::Compress { archive }) && archive@ == zipped_path(
                    path@,
                ) + format@
            },
        },
{
    match is_ds_store(path) {
        None => None,
        Some(true) => Some(ChapterAction::Skip),
        Some(false) => {
            let archive = archive_path(path, format);
            if keep_existing_archive(force, exists, zip_size, input_size) {
                Some(ChapterAction::Keep { archive })
            } else {
                Some(ChapterAction::Compress { archive })
            }
        },
    }
}

/// The options of a compression run: whether to overwrite, and the format
/// with a leading `.`.
pub fn compress_options(force: bool, format: &str) -> (r: (bool, String))
    ensures
        r.0 == force,
        r.1@ == crate::globals::with_leading_dot(format@),
{
    (force, crate::globals::dotted(format))
}

} // verus!

verus! {

/// Replacing a one-character pattern by a text without it leaves no
/// occurrence of the pattern's character.
proof fn lemma_replace_removes_char(s: Seq<char>, c: char, to: Seq<char>)
    requires
        !to.contains(c),
    ensures
        !replace_all(s, seq![c], to).contains(c),
    decreases s.len(),
{
    if s.len() >= 1 {
        let from = seq![c];
        if s.take(1) == from {
            lemma_replace_removes_char(s.skip(1), c, to);
            let r = replace_all(s.skip(1), from, to);
            assert forall|i: int| 0 <= i < (to + r).len() implies (to + r)[i] != c by {
                if i >= to.len() {
                    assert((to + r)[i] == r[i - to.len()]);
                }
            }
        } else {
            lemma_replace_removes_char(s.drop_first(), c, to);
            let r = replace_all(s.drop_first(), from, to);
            assert(s[0] != c) by {
                assert(s.take(1) =~= seq![s[0]]);
            }
            assert forall|i: int| 0 <= i < (seq![s[0]] + r).len() implies (seq![s[0]] + r)[i] != c by {
                if i >= 1 {
                    assert((seq![s[0]] + r)[i] == r[i - 1]);
                }
            }
        }
    }
}

/// A path with `\` written as `/` holds no `\`, and its last component
/// (what `get_last` gives) holds neither `\` nor `/`.
pub proof fn lemma_slashed_paths(p: Seq<char>)
    ensures
        !slashed(p).contains('\\'),
        !last_segment(slashed(p), '/').contains('/'),
        !last_segment(slashed(p), '/').contains('\\'),
{
    reveal_strlit("\\");
    reveal_strlit("/");
    assert("\\"@ =~= seq!['\\']);
    assert(!"/"@.contains('\\'));
    lemma_replace_removes_char(p, '\\', "/"@);
    let s = slashed(p);
    crate::text::lemma_split_parts_lack_sep(s, '/');
    crate::text::lemma_split_nonempty(s, '/');
    let parts = crate::text::split_on(s, '/');
    let last = parts[parts.len() - 1];
    assert(!last.contains('/')) by {
        if last.contains('/') {
            let j = choose|j: int| 0 <= j < last.len() && last[j] == '/';
            assert(parts[parts.len() - 1][j] != '/');
        }
    }
    lemma_parts_within(s, '/');
    assert(!last.contains('\\')) by {
        if last.contains('\\') {
            let j = choose|j: int| 0 <= j < last.len() && last[j] == '\\';
            assert(s.contains(last[j]));
        }
    }
}

/// Every character of a part of a split occurs in the text.
proof fn lemma_parts_within(s: Seq<char>, sep: char)
    ensures
        forall|i: int, j: int|
            0 <= i < crate::text::split_on(s, sep).len() && 0 <= j < crate::text::split_on(s, sep)[i].len()
                ==> s.contains(#[trigger] crate::text::split_on(s, sep)[i][j]),
    decreases s.len(),
{
    if s.len() > 0 {
        lemma_parts_within(s.drop_last(), sep);
        crate::text::lemma_split_nonempty(s.drop_last(), sep);
        let prev = crate::text::split_on(s.drop_last(), sep);
        let cur = crate::text::split_on(s, sep);
        assert forall|i: int, j: int| 0 <= i < cur.len() && 0 <= j < cur[i].len() implies s.contains(
            #[trigger] cur[i][j],
        ) by {
            if s.last() == sep {
                if i < prev.len() {
                    let k = choose|k: int| 0 <= k < s.drop_last().len() && s.drop_last()[k] == prev[i][j];
                    assert(s[k] == cur[i][j]);
                }
            } else {
                if i < prev.len() - 1 || j < prev[i].len() {
                    let k = choose|k: int| 0 <= k < s.drop_last().len() && s.drop_last()[k] == prev[i][j];
                    assert(s[k] == cur[i][j]);
                } else {
                    assert(cur[i][j] == s.last());
                    assert(s[s.len() - 1] == s.last());
                }
            }
        }
    }
}

} // verus!
