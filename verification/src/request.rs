//! Handling of one request for tags: which file it names, and what is
//! written for what the parser made of that file.

use vstd::prelude::*;
use crate::scope::Scope;
use crate::tags::{emit_tags_for_scope, scope_tags, tags_bytes};

verus! {

/// Whether `part` stands in `whole` as one unbroken piece.
pub open spec fn is_part_of(part: Seq<char>, whole: Seq<char>) -> bool {
    exists|start: int|
        0 <= start && start + part.len() <= whole.len() && #[trigger] whole.subrange(
            start,
            start + part.len(),
        ) == part
}

/// The final component of a path, as `std::path::Path::file_name` gives it,
/// where it is valid Unicode.
///
/// Trusted: a component is a piece of the path as it was written. Whether
/// there is a final component, and which piece it is, is not claimed: how a
/// path splits into components is the platform's matter.
#[verifier::external_body]
fn path_file_name(filename: &str) -> (file_name: Option<String>)
    ensures
        file_name matches Some(name) ==> is_part_of(name@, filename@),
{
    let name = std::path::Path::new(filename).file_name()?;
    Some(name.to_str()?.to_string())
}

/// The index of the last dot of a file name, and -1 where it has none.
pub open spec fn last_dot(file_name: Seq<char>) -> int
    decreases file_name.len(),
{
    if file_name.len() == 0 {
        -1
    } else if file_name.last() == '.' {
        file_name.len() - 1
    } else {
        last_dot(file_name.drop_last())
    }
}

/// The extension of a file name: what follows its last dot. A name without
/// a dot has none, nor has a name whose only dot comes first.
pub open spec fn extension_in(file_name: Seq<char>) -> Option<Seq<char>> {
    let dot = last_dot(file_name);
    if dot <= 0 {
        None
    } else {
        Some(file_name.skip(dot + 1))
    }
}

/// A name without dots from `from` on has its last dot where its first
/// `from` characters have it.
pub proof fn lemma_last_dot_before(file_name: Seq<char>, from: int)
    requires
        0 <= from <= file_name.len(),
        forall|k: int| from <= k < file_name.len() ==> file_name[k] != '.',
    ensures
        last_dot(file_name) == last_dot(file_name.take(from)),
    decreases file_name.len() - from,
{
    if from == file_name.len() {
        assert(file_name.take(from) == file_name);
    } else {
        let shorter = file_name.drop_last();
        lemma_last_dot_before(shorter, from);
        assert(shorter.take(from) == file_name.take(from));
    }
}

/// A piece of a text without dots has no extension.
pub proof fn lemma_no_dot_no_extension(part: Seq<char>, whole: Seq<char>)
    requires
        is_part_of(part, whole),
        !whole.contains('.'),
    ensures
        extension_in(part) is None,
{
    let start = choose|start: int|
        0 <= start && start + part.len() <= whole.len() && #[trigger] whole.subrange(
            start,
            start + part.len(),
        ) == part;
    assert forall|k: int| 0 <= k < part.len() implies part[k] != '.' by {
        assert(part[k] == whole.subrange(start, start + part.len())[k]);
        assert(whole.contains(whole[start + k]));
    }
    lemma_last_dot_before(part, 0);
    assert(part.take(0).len() == 0);
}

/// The file that a request names, as far as tagging needs it.
#[derive(Debug)]
pub struct SourceFile {
    /// The file's name without its directories: the `path` of every tag.
    pub filepath: String,
    /// The extension of that name: it selects the parser.
    pub extension: String,
}

/// What the parser made of a file's content.
#[derive(Debug)]
pub enum Extraction {
    /// No parser is known for the file's extension.
    UnknownParser,
    /// The parser could not make a scope tree of the content.
    ParseFailure,
    /// The root scope of the file.
    Parsed(Scope),
}

/// The extension of a file name.
pub fn extension(file_name: &str) -> (ext: Option<String>)
    ensures
        match ext {
            Some(e) => extension_in(file_name@) == Some(e@),
            None => extension_in(file_name@) is None,
        },
{
    let len: usize = file_name.unicode_len();
    let mut i: usize = len;
    while i > 0
        invariant
            i <= len,
            len == file_name@.len(),
            forall|k: int| i <= k < len ==> file_name@[k] != '.',
        decreases i,
    {
        if file_name.get_char(i - 1) == '.' {
            proof {
                lemma_last_dot_before(file_name@, i as int);
            }
            if i == 1 {
                return None;
            }
            return Some(String::from_str(file_name.substring_char(i, len)));
        }
        i -= 1;
    }
    proof {
        lemma_last_dot_before(file_name@, 0);
    }
    None
}

impl SourceFile {
    /// The source file of a final path component: there is one where the
    /// component exists and has an extension.
    pub fn from_file_name(file_name: Option<String>) -> (file: Option<SourceFile>)
        ensures
            match file {
                Some(f) => file_name matches Some(name) && f.filepath@ == name@ && extension_in(
                    name@,
                ) == Some(f.extension@),
                None => file_name matches Some(name) ==> extension_in(name@) is None,
            },
    {
        match file_name {
            Some(filepath) => match extension(filepath.as_str()) {
                Some(extension) => Some(SourceFile { filepath, extension }),
                None => None,
            },
            None => None,
        }
    }

    /// The source file that a request's `filename` names, if it names one
    /// with an extension.
    ///
    /// The file's name is the final component of `filename`, a piece of it,
    /// and the extension is that of this name. There is no source file where
    /// `filename` has no final component or that component has no
    /// extension: so there is none where `filename` holds no dot at all.
    pub fn locate(filename: &str) -> (file: Option<SourceFile>)
        ensures
            file matches Some(f) ==> is_part_of(f.filepath@, filename@) && extension_in(
                f.filepath@,
            ) == Some(f.extension@),
            !filename@.contains('.') ==> file is None,
    {
        let file_name = path_file_name(filename);
        proof {
            if file_name is Some && !filename@.contains('.') {
                lemma_no_dot_no_extension(file_name->Some_0@, filename@);
            }
        }
        SourceFile::from_file_name(file_name)
    }
}

/// Writes the tags of a file, given what the parser made of it.
///
/// Where the parser gave a root scope, its tags are written, each with the
/// file's name as `path` and `go` as `language`, and the result is `Some`.
/// Where no parser is known, or the parser failed, nothing is written and
/// the result is `None`: the caller is not told which of the two it was.
pub fn generate_tags(buf_writer: &mut Vec<u8>, file: &SourceFile, extraction: Extraction) -> (done:
    Option<()>)
    requires
        extraction matches Extraction::Parsed(root) ==> root@.wf(),
    ensures
        match extraction {
            Extraction::Parsed(root) => done is Some && final(buf_writer)@ == old(buf_writer)@
                + tags_bytes(scope_tags(root@, Seq::empty(), file.filepath@, "go"@)),
            _ => done is None && final(buf_writer)@ == old(buf_writer)@,
        },
{
    match extraction {
        Extraction::Parsed(root_scope) => {
            let parent_scopes: Vec<String> = Vec::new();
            assert(parent_scopes.deep_view() == Seq::<Seq<char>>::empty());
            emit_tags_for_scope(buf_writer, file.filepath.as_str(), parent_scopes, &root_scope, "go");
            Some(())
        },
        _ => None,
    }
}

} // verus!
