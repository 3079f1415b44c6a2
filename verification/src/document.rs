//! A text document that follows the edits of an editor.
//!
//! A document is its text, a version that counts the edits applied to it, and
//! an index of the byte offsets at which its lines start. Positions name a
//! line and a byte distance into it.

use vstd::prelude::*;
use vstd::string::*;
use vstd::utf8::*;
use crate::errors::DocumentError;
use crate::text::{
    byte_len, lemma_boundary_after_ascii, lemma_boundary_in_prefix, lemma_encode_concat,
    lemma_encode_injective, slice_str, splice_str, text_bytes, NEWLINE,
};

verus! {

/// A place in a document: a line, and a distance in bytes from its start.
#[derive(Debug, Clone, Copy, PartialEq, Eq, Structural)]
pub struct Position {
    pub line: u32,
    pub character: u32,
}

/// The text between two positions.
#[derive(Debug, Clone, Copy, PartialEq, Eq, Structural)]
pub struct Range {
    pub start: Position,
    pub end: Position,
}

/// One edit: new text for a range, or for the whole document where no range is
/// given.
#[derive(Debug, Clone, PartialEq, Eq)]
pub struct ContentChange {
    pub range: Option<Range>,
    pub text: String,
}

/// Why a file could not be read.
#[derive(Debug, Clone, PartialEq, Eq)]
pub enum ReadFailure {
    NotFound,
    PermissionDenied,
    Other { detail: String },
}

/// The offsets at which lines start within the first `n` bytes: offset 0, and
/// each offset that follows a newline byte.
pub open spec fn line_starts_upto(bytes: Seq<u8>, n: int) -> Seq<int>
    decreases n,
{
    if n <= 0 {
        seq![0int]
    } else if bytes[n - 1] == NEWLINE {
        line_starts_upto(bytes, n - 1).push(n)
    } else {
        line_starts_upto(bytes, n - 1)
    }
}

/// The offsets at which the lines of a text start, in increasing order.
pub open spec fn line_starts(bytes: Seq<u8>) -> Seq<int> {
    line_starts_upto(bytes, bytes.len() as int)
}

/// Where line `n` starts; the end of the text for a line that does not exist.
pub open spec fn line_start(bytes: Seq<u8>, n: int) -> int {
    if 0 <= n < line_starts(bytes).len() {
        line_starts(bytes)[n]
    } else {
        bytes.len() as int
    }
}

/// The bytes of line `n`, its newline included; empty for a line that does not
/// exist.
pub open spec fn line_bytes(bytes: Seq<u8>, n: int) -> Seq<u8> {
    bytes.subrange(line_start(bytes, n), line_start(bytes, n + 1))
}

/// The byte offset that a position names.
pub open spec fn position_offset(bytes: Seq<u8>, position: Position) -> int {
    line_start(bytes, position.line as int) + position.character as int
}

/// A range can be replaced when it runs forward, ends within the text and
/// cuts no character in two.
pub open spec fn range_valid(bytes: Seq<u8>, range: Range) -> bool {
    let start = position_offset(bytes, range.start);
    let end = position_offset(bytes, range.end);
    &&& start <= end <= bytes.len()
    &&& is_char_boundary(bytes, start)
    &&& is_char_boundary(bytes, end)
}

/// Whether a change can be applied to a text.
pub open spec fn change_valid(bytes: Seq<u8>, change: ContentChange) -> bool {
    match change.range {
        Some(range) => range_valid(bytes, range),
        None => true,
    }
}

/// `bytes` with the part from `start` to `end` replaced by `text`.
pub open spec fn splice(bytes: Seq<u8>, start: int, end: int, text: Seq<u8>) -> Seq<u8> {
    bytes.subrange(0, start) + text + bytes.subrange(end, bytes.len() as int)
}

/// The text that a valid change makes of `bytes`.
pub open spec fn changed_bytes(bytes: Seq<u8>, change: ContentChange) -> Seq<u8> {
    match change.range {
        Some(range) => splice(
            bytes,
            position_offset(bytes, range.start),
            position_offset(bytes, range.end),
            text_bytes(change.text@),
        ),
        None => text_bytes(change.text@),
    }
}

/// What a batch of changes, applied in order, makes of `bytes`: the text
/// after the changes that could be applied, and how many those were. The batch
/// stops at the first change that is not valid for the text it meets.
pub open spec fn batch_result(bytes: Seq<u8>, changes: Seq<ContentChange>) -> (Seq<u8>, nat)
    decreases changes.len(),
{
    if changes.len() == 0 || !change_valid(bytes, changes[0]) {
        (bytes, 0)
    } else {
        let rest = batch_result(changed_bytes(bytes, changes[0]), changes.drop_first());
        (rest.0, rest.1 + 1)
    }
}

/// All of `changes` applied in order with no check of validity.
pub open spec fn splice_all(bytes: Seq<u8>, changes: Seq<ContentChange>) -> Seq<u8>
    decreases changes.len(),
{
    if changes.len() == 0 {
        bytes
    } else {
        splice_all(changed_bytes(bytes, changes[0]), changes.drop_first())
    }
}

/// Whether the offsets held by a document are the line starts of its text.
pub open spec fn offsets_match(offsets: Seq<usize>, starts: Seq<int>) -> bool {
    &&& offsets.len() == starts.len()
    &&& forall|i: int| 0 <= i < offsets.len() ==> offsets[i] as int == starts[i]
}

/// The text of line `n` of a text, its newline included.
pub open spec fn line_text(chars: Seq<char>, n: int) -> Seq<char> {
    decode_utf8(line_bytes(text_bytes(chars), n))
}

/// The texts of the first `k` lines of a text, one after the other.
pub open spec fn line_texts_concat(chars: Seq<char>, k: int) -> Seq<char>
    decreases k,
{
    if k <= 0 {
        Seq::<char>::empty()
    } else {
        line_texts_concat(chars, k - 1) + line_text(chars, k - 1)
    }
}

/// The first `k` lines of a text, one after the other.
pub open spec fn lines_concat(bytes: Seq<u8>, k: int) -> Seq<u8>
    decreases k,
{
    if k <= 0 {
        Seq::<u8>::empty()
    } else {
        lines_concat(bytes, k - 1) + line_bytes(bytes, k - 1)
    }
}

/// What holds of the line starts within the first `n` bytes: they begin with 0,
/// increase strictly, stay within `n`, each but the first follows a newline,
/// and none is missing.
pub proof fn lemma_line_starts_upto(bytes: Seq<u8>, n: int)
    requires
        0 <= n <= bytes.len(),
    ensures
        line_starts_upto(bytes, n).len() >= 1,
        line_starts_upto(bytes, n)[0] == 0,
        forall|i: int|
            0 <= i < line_starts_upto(bytes, n).len() ==> 0 <= #[trigger] line_starts_upto(
                bytes,
                n,
            )[i] <= n,
        forall|i: int|
            0 < i < line_starts_upto(bytes, n).len() ==> bytes[#[trigger] line_starts_upto(
                bytes,
                n,
            )[i] - 1] == NEWLINE,
        forall|i: int, j: int|
            0 <= i < j < line_starts_upto(bytes, n).len() ==> #[trigger] line_starts_upto(
                bytes,
                n,
            )[i] < #[trigger] line_starts_upto(bytes, n)[j],
        forall|p: int|
            0 < p <= n && #[trigger] bytes[p - 1] == NEWLINE ==> line_starts_upto(
                bytes,
                n,
            ).contains(p),
    decreases n,
{
    if n > 0 {
        lemma_line_starts_upto(bytes, n - 1);
        let prev = line_starts_upto(bytes, n - 1);
        let cur = line_starts_upto(bytes, n);
        if bytes[n - 1] == NEWLINE {
            assert(cur == prev.push(n));
            assert forall|p: int| 0 < p <= n
                && #[trigger] bytes[p - 1] == NEWLINE implies cur.contains(
                p,
            ) by {
                if p == n {
                    assert(cur[prev.len() as int] == n);
                } else {
                    assert(prev.contains(p));
                    let k = choose|k: int| 0 <= k < prev.len() && prev[k] == p;
                    assert(cur[k] == p);
                }
            }
        }
    }
}

/// The same facts of the line starts of a whole text.
pub proof fn lemma_line_starts(bytes: Seq<u8>)
    ensures
        line_starts(bytes).len() >= 1,
        line_starts(bytes)[0] == 0,
        forall|i: int|
            0 <= i < line_starts(bytes).len() ==> 0 <= #[trigger] line_starts(bytes)[i]
                <= bytes.len(),
        forall|i: int|
            0 < i < line_starts(bytes).len() ==> bytes[#[trigger] line_starts(bytes)[i] - 1]
                == NEWLINE,
        forall|i: int, j: int|
            0 <= i < j < line_starts(bytes).len() ==> #[trigger] line_starts(bytes)[i]
                < #[trigger] line_starts(bytes)[j],
        forall|p: int|
            0 < p <= bytes.len() && #[trigger] bytes[p - 1] == NEWLINE ==> line_starts(
                bytes,
            ).contains(p),
{
    lemma_line_starts_upto(bytes, bytes.len() as int);
}

/// Line starts do not decrease with the line number, and none lies beyond the
/// end of the text.
pub proof fn lemma_line_start_monotone(bytes: Seq<u8>, m: int, n: int)
    requires
        0 <= m <= n,
    ensures
        0 <= line_start(bytes, m) <= line_start(bytes, n) <= bytes.len(),
{
    lemma_line_starts(bytes);
}

/// In the encoding of a text every line starts on a character boundary.
pub proof fn lemma_line_start_is_boundary(chars: Seq<char>, n: int)
    requires
        0 <= n,
    ensures
        is_char_boundary(text_bytes(chars), line_start(text_bytes(chars), n)),
{
    let bytes = text_bytes(chars);
    encode_utf8_valid_utf8(chars);
    lemma_line_starts(bytes);
    is_char_boundary_start_end_of_seq(bytes);
    if 0 < n < line_starts(bytes).len() {
        lemma_boundary_after_ascii(bytes, line_starts(bytes)[n]);
    }
}

/// The lines of a text, taken in order and put end to end, are the text.
pub proof fn lemma_lines_reconstruct(bytes: Seq<u8>)
    ensures
        lines_concat(bytes, line_starts(bytes).len() as int) == bytes,
{
    lemma_lines_concat_prefix(bytes, line_starts(bytes).len() as int);
    assert(bytes.subrange(0, bytes.len() as int) =~= bytes);
}

/// Each line of a text is itself well-formed text.
pub proof fn lemma_line_is_text(chars: Seq<char>, n: int)
    requires
        0 <= n,
    ensures
        valid_utf8(line_bytes(text_bytes(chars), n)),
        text_bytes(line_text(chars, n)) == line_bytes(text_bytes(chars), n),
{
    let bytes = text_bytes(chars);
    let start = line_start(bytes, n);
    let end = line_start(bytes, n + 1);
    encode_utf8_valid_utf8(chars);
    lemma_line_start_monotone(bytes, n, n + 1);
    lemma_line_start_is_boundary(chars, n);
    lemma_line_start_is_boundary(chars, n + 1);
    lemma_boundary_in_prefix(bytes, start, end);
    valid_utf8_split(bytes.subrange(0, end), start);
    assert(bytes.subrange(0, end).subrange(start, end) =~= bytes.subrange(start, end));
    decode_utf8_encode_utf8(line_bytes(bytes, n));
}

/// The texts of the lines of a text, taken in order and put end to end, are
/// the text.
pub proof fn lemma_line_texts_reconstruct(chars: Seq<char>)
    ensures
        line_texts_concat(chars, line_starts(text_bytes(chars)).len() as int) == chars,
{
    let count = line_starts(text_bytes(chars)).len() as int;
    lemma_line_texts_encode(chars, count);
    lemma_lines_reconstruct(text_bytes(chars));
    lemma_encode_injective(line_texts_concat(chars, count), chars);
}

/// The texts of the first `k` lines put end to end encode to the bytes of
/// those lines put end to end.
pub proof fn lemma_line_texts_encode(chars: Seq<char>, k: int)
    requires
        0 <= k,
    ensures
        text_bytes(line_texts_concat(chars, k)) == lines_concat(text_bytes(chars), k),
    decreases k,
{
    if k > 0 {
        lemma_line_texts_encode(chars, k - 1);
        lemma_line_is_text(chars, k - 1);
        lemma_encode_concat(line_texts_concat(chars, k - 1), line_text(chars, k - 1));
    }
}

/// The first `k` lines put end to end are the text up to the start of line `k`.
pub proof fn lemma_lines_concat_prefix(bytes: Seq<u8>, k: int)
    requires
        0 <= k,
    ensures
        lines_concat(bytes, k) == bytes.subrange(0, line_start(bytes, k)),
    decreases k,
{
    lemma_line_starts(bytes);
    if k == 0 {
        assert(bytes.subrange(0, 0) =~= Seq::<u8>::empty());
    } else {
        lemma_lines_concat_prefix(bytes, k - 1);
        lemma_line_start_monotone(bytes, k - 1, k);
        assert(bytes.subrange(0, line_start(bytes, k - 1)) + bytes.subrange(
            line_start(bytes, k - 1),
            line_start(bytes, k),
        ) =~= bytes.subrange(0, line_start(bytes, k)));
    }
}

/// A batch in which every change is valid for the text it meets gives the text
/// that plain splicing of the same changes gives, and applies all of them.
pub proof fn lemma_valid_batch_is_splicing(bytes: Seq<u8>, changes: Seq<ContentChange>)
    requires
        batch_result(bytes, changes).1 == changes.len(),
    ensures
        batch_result(bytes, changes).0 == splice_all(bytes, changes),
    decreases changes.len(),
{
    if changes.len() > 0 {
        lemma_valid_batch_is_splicing(changed_bytes(bytes, changes[0]), changes.drop_first());
    }
}

/// One file's text with its version and line index.
#[derive(Debug, Clone)]
pub struct Document {
    version: i32,
    uri: String,
    content: String,
    line_offsets: Vec<usize>,
}

impl Document {
    /// The text of the document.
    pub closed spec fn text(&self) -> Seq<char> {
        self.content@
    }

    /// The text of the document as bytes.
    pub open spec fn bytes(&self) -> Seq<u8> {
        text_bytes(self.text())
    }

    /// The identifier under which the document is kept.
    pub closed spec fn uri_text(&self) -> Seq<char> {
        self.uri@
    }

    /// The number of the document's current version.
    pub closed spec fn version_number(&self) -> int {
        self.version as int
    }

    /// The line index that the document holds.
    pub closed spec fn offsets(&self) -> Seq<usize> {
        self.line_offsets@
    }

    /// The line index agrees with the text.
    pub open spec fn wf(&self) -> bool {
        offsets_match(self.offsets(), line_starts(self.bytes()))
    }

    /// The offsets at which the lines of `text` start.
    pub fn calculate_line_offsets(text: &str) -> (offsets: Vec<usize>)
        ensures
            offsets_match(offsets@, line_starts(text.spec_bytes())),
    {
        let bytes = text.as_bytes();
        let n = bytes.len();
        let mut offsets: Vec<usize> = Vec::new();
        offsets.push(0);
        let mut i: usize = 0;
        while i < n
            invariant
                i <= n,
                n == bytes@.len(),
                bytes@ == text.spec_bytes(),
                offsets_match(offsets@, line_starts_upto(bytes@, i as int)),
            decreases n - i,
        {
            if bytes[i] == NEWLINE {
                offsets.push(i + 1);
            }
            i = i + 1;
        }
        offsets
    }

    /// A document at version 1 with the given text.
    pub fn new(uri: &str, content: String) -> (doc: Document)
        ensures
            doc.wf(),
            doc.version_number() == 1,
            doc.uri_text() == uri@,
            doc.text() == content@,
    {
        let line_offsets = Self::calculate_line_offsets(content.as_str());
        Document { version: 1, uri: uri.to_owned(), content, line_offsets }
    }

    /// The document for a file from what reading the file gave: its text, or
    /// the reason why there is none.
    pub fn build_from_path(path: &str, read: Result<String, ReadFailure>) -> (r: Result<
        Document,
        DocumentError,
    >)
        ensures
            match read {
                Ok(content) => r matches Ok(doc) && doc.wf() && doc.version_number() == 1
                    && doc.uri_text() == path@ && doc.text() == content@,
                Err(ReadFailure::NotFound) => r matches Err(e) && e.is_not_found(path@),
                Err(ReadFailure::PermissionDenied) => r matches Err(e) && e.is_permission_denied(
                    path@,
                ),
                Err(ReadFailure::Other { detail }) => r matches Err(e) && e.is_io_error(
                    path@,
                    detail@,
                ),
            },
    {
        match read {
            Ok(content) => Ok(Document::new(path, content)),
            Err(ReadFailure::NotFound) => Err(
                DocumentError::DocumentNotFound { path: path.to_owned() },
            ),
            Err(ReadFailure::PermissionDenied) => Err(
                DocumentError::PermissionDenied { path: path.to_owned() },
            ),
            Err(ReadFailure::Other { detail }) => Err(
                DocumentError::IOError { path: path.to_owned(), error: detail },
            ),
        }
    }

    /// The identifier under which the document is kept.
    pub fn get_uri(&self) -> (r: &str)
        ensures
            r@ == self.uri_text(),
    {
        self.uri.as_str()
    }

    /// The whole text.
    pub fn get_text(&self) -> (r: &str)
        ensures
            r@ == self.text(),
    {
        self.content.as_str()
    }

    /// The number of the current version: 1 for a new document, one more after
    /// each change applied.
    pub fn get_version(&self) -> (r: i32)
        ensures
            r == self.version_number(),
    {
        self.version
    }

    /// The number of lines; a text without a newline has one.
    pub fn line_count(&self) -> (r: usize)
        requires
            self.wf(),
        ensures
            r == line_starts(self.bytes()).len(),
    {
        self.line_offsets.len()
    }

    /// Line `line` with its newline; the empty text for a line that does not
    /// exist.
    pub fn get_line(&self, line: usize) -> (r: &str)
        requires
            self.wf(),
        ensures
            r.spec_bytes() == line_bytes(self.bytes(), line as int),
            r@ == line_text(self.text(), line as int),
    {
        proof {
            encode_utf8_decode_utf8(line_text(self.text(), line as int));
        }
        let text = self.content.as_str();
        let len = byte_len(text);
        let count = self.line_offsets.len();
        proof {
            lemma_line_starts(self.bytes());
        }
        let start = if line < count {
            self.line_offsets[line]
        } else {
            len
        };
        let end = if line < count - 1 {
            self.line_offsets[line + 1]
        } else {
            len
        };
        proof {
            lemma_line_start_monotone(self.bytes(), line as int, line + 1);
            lemma_line_start_is_boundary(self.text(), line as int);
            lemma_line_start_is_boundary(self.text(), line + 1);
        }
        let part = slice_str(text, start, end);
        proof {
            encode_utf8_decode_utf8(part@);
        }
        part
    }

    /// The byte offset that `position` names, where a `usize` can hold it.
    pub fn position_to_index(&self, position: Position) -> (r: Option<usize>)
        requires
            self.wf(),
        ensures
            r == if position_offset(self.bytes(), position) <= usize::MAX {
                Some(position_offset(self.bytes(), position) as usize)
            } else {
                None
            },
    {
        let line = position.line as usize;
        let line_offset = if line < self.line_offsets.len() {
            self.line_offsets[line]
        } else {
            byte_len(self.content.as_str())
        };
        line_offset.checked_add(position.character as usize)
    }

    /// The two byte offsets of a range that can be replaced.
    fn resolve_range(&self, range: Range) -> (r: Option<(usize, usize)>)
        requires
            self.wf(),
        ensures
            r is Some <==> range_valid(self.bytes(), range),
            r matches Some((start, end)) ==> start == position_offset(self.bytes(), range.start)
                && end == position_offset(self.bytes(), range.end),
    {
        let text = self.content.as_str();
        let len = byte_len(text);
        match (self.position_to_index(range.start), self.position_to_index(range.end)) {
            (Some(start), Some(end)) => {
                if start <= end && end <= len && text.is_char_boundary(start)
                    && text.is_char_boundary(end) {
                    Some((start, end))
                } else {
                    None
                }
            },
            _ => {
                proof {
                    lemma_line_start_monotone(self.bytes(), 0, range.start.line as int);
                    lemma_line_start_monotone(self.bytes(), 0, range.end.line as int);
                }
                None
            },
        }
    }

    /// Whether `range` can be replaced in this document.
    pub fn validate_range(&self, range: Range) -> (r: Result<(), DocumentError>)
        requires
            self.wf(),
        ensures
            r is Ok <==> range_valid(self.bytes(), range),
            r is Err ==> r == Err::<(), DocumentError>(DocumentError::InvalidRange { range }),
    {
        match self.resolve_range(range) {
            Some(_) => Ok(()),
            None => Err(DocumentError::InvalidRange { range }),
        }
    }

    /// Applies one change. A change with a range replaces that range; one
    /// without replaces the whole text. A range that is not valid leaves the
    /// document as it was.
    pub fn apply_change(&mut self, change: &ContentChange) -> (r: Result<(), DocumentError>)
        requires
            old(self).wf(),
            change_valid(old(self).bytes(), *change) ==> old(self).version_number() < i32::MAX,
        ensures
            final(self).wf(),
            r is Ok <==> change_valid(old(self).bytes(), *change),
            r is Ok ==> final(self).bytes() == changed_bytes(old(self).bytes(), *change)
                && final(self).text() == decode_utf8(changed_bytes(old(self).bytes(), *change))
                && final(self).version_number() == old(self).version_number() + 1
                && final(self).uri_text() == old(self).uri_text(),
            r is Ok && change.range is None ==> final(self).text() == change.text@,
            r is Err ==> *final(self) == *old(self) && change.range is Some && r == Err::<
                (),
                DocumentError,
            >(DocumentError::InvalidRange { range: change.range->0 }),
    {
        match change.range {
            Some(range) => {
                match self.resolve_range(range) {
                    Some((start, end)) => {
                        self.content = splice_str(
                            self.content.as_str(),
                            start,
                            end,
                            change.text.as_str(),
                        );
                    },
                    None => {
                        return Err(DocumentError::InvalidRange { range });
                    },
                }
            },
            None => {
                self.content = change.text.clone();
            },
        }
        self.line_offsets = Self::calculate_line_offsets(self.content.as_str());
        self.version = self.version + 1;
        proof {
            encode_utf8_decode_utf8(self.text());
        }
        Ok(())
    }

    /// Applies changes in order and stops at the first that is not valid. The
    /// changes before it stay applied.
    pub fn apply_changes(&mut self, changes: &[ContentChange]) -> (r: Result<(), DocumentError>)
        requires
            old(self).wf(),
            old(self).version_number() + batch_result(old(self).bytes(), changes@).1 <= i32::MAX,
        ensures
            final(self).wf(),
            final(self).uri_text() == old(self).uri_text(),
            final(self).bytes() == batch_result(old(self).bytes(), changes@).0,
            final(self).version_number() == old(self).version_number() + batch_result(
                old(self).bytes(),
                changes@,
            ).1,
            r is Ok <==> batch_result(old(self).bytes(), changes@).1 == changes@.len(),
            r is Err ==> changes@[batch_result(old(self).bytes(), changes@).1 as int].range is Some
                && r == Err::<(), DocumentError>(
                DocumentError::InvalidRange {
                    range: changes@[batch_result(old(self).bytes(), changes@).1 as int].range->0,
                },
            ),
    {
        let n = changes.len();
        let mut i: usize = 0;
        assert(changes@.skip(0) =~= changes@);
        while i < n
            invariant
                i <= n,
                n == changes@.len(),
                self.wf(),
                self.uri_text() == old(self).uri_text(),
                self.version_number() == old(self).version_number() + i,
                old(self).version_number() + batch_result(old(self).bytes(), changes@).1
                    <= i32::MAX,
                batch_result(old(self).bytes(), changes@).0 == batch_result(
                    self.bytes(),
                    changes@.skip(i as int),
                ).0,
                batch_result(old(self).bytes(), changes@).1 == i + batch_result(
                    self.bytes(),
                    changes@.skip(i as int),
                ).1,
            decreases n - i,
        {
            let ghost before = self.bytes();
            let ghost rest = changes@.skip(i as int);
            assert(rest.len() > 0 && rest[0] == changes@[i as int]);
            assert(rest.drop_first() =~= changes@.skip(i + 1));
            match self.apply_change(&changes[i]) {
                Ok(()) => {},
                Err(e) => {
                    return Err(e);
                },
            }
            i = i + 1;
        }
        assert(changes@.skip(n as int).len() == 0);
        Ok(())
    }
}

} // verus!
