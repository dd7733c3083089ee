//! Source files, spans inside them, and the registry that owns them.
use vstd::prelude::*;

use crate::text::{bytes_as_chars, push_bytes_as_chars, to_owned_string};
use vstd::utf8::encode_utf8;

verus! {

/// Identifies one file registered in a `SourceManager`.
#[derive(Debug, Clone, Copy, PartialEq, Eq, Structural)]
pub struct FileId(pub usize);

impl FileId {
    pub fn new(id: usize) -> (result: Self)
        ensures
            result.0 == id,
    {
        FileId(id)
    }
}

/// A half-open byte range `start..end` inside one source file.
#[derive(Debug, Clone, Copy, PartialEq, Eq, Structural)]
pub struct SourceSpan {
    pub file_id: FileId,
    pub start: usize,
    pub end: usize,
}

impl SourceSpan {
    pub fn new(file_id: FileId, start: usize, end: usize) -> (result: Self)
        ensures
            result.file_id == file_id,
            result.start == start,
            result.end == end,
    {
        SourceSpan { file_id, start, end }
    }

    pub fn file_id(&self) -> (result: FileId)
        ensures
            result == self.file_id,
    {
        self.file_id
    }

    pub fn start(&self) -> (result: usize)
        ensures
            result == self.start,
    {
        self.start
    }

    pub fn end(&self) -> (result: usize)
        ensures
            result == self.end,
    {
        self.end
    }
}

/// A one-based line and column.
#[derive(Debug, Clone, Copy, PartialEq, Eq, Structural)]
pub struct SourceLocation {
    pub line: usize,
    pub column: usize,
}

/// The number of line feeds in `s`.
pub open spec fn newline_count(s: Seq<u8>) -> nat
    decreases s.len(),
{
    if s.len() == 0 {
        0
    } else {
        newline_count(s.drop_last()) + if s.last() == 10u8 { 1nat } else { 0nat }
    }
}

/// The offset at which the line holding `offset` begins: one past the last
/// line feed before `offset`, or 0.
pub open spec fn line_start_before(s: Seq<u8>, offset: int) -> int
    decreases offset,
{
    if offset <= 0 {
        0
    } else if s[offset - 1] == 10u8 {
        offset
    } else {
        line_start_before(s, offset - 1)
    }
}

/// The first offset at or after `from` that holds a line feed, or the length
/// of `s` when there is none.
pub open spec fn next_newline(s: Seq<u8>, from: int) -> int
    decreases s.len() - from,
{
    if from >= s.len() {
        s.len() as int
    } else if s[from] == 10u8 {
        from
    } else {
        next_newline(s, from + 1)
    }
}

/// The offset at which the one-based line `line` begins, when the text has
/// that many lines.
pub open spec fn line_begin(s: Seq<u8>, line: nat) -> Option<int>
    decreases line,
{
    if line == 0 {
        None
    } else if line == 1 {
        Some(0)
    } else {
        match line_begin(s, (line - 1) as nat) {
            Some(prev) => {
                let nl = next_newline(s, prev);
                if nl < s.len() {
                    Some(nl + 1)
                } else {
                    None
                }
            },
            None => None,
        }
    }
}

/// `n + 1`, or `usize::MAX` where that does not fit.
pub open spec fn saturating_succ(n: int) -> usize {
    if n + 1 > usize::MAX {
        usize::MAX
    } else {
        (n + 1) as usize
    }
}

/// The location of byte `offset` in `s`: the line is one more than the line
/// feeds before it, the column one more than its distance from the line's
/// start (both saturate at `usize::MAX`). Offsets past the end have no
/// location.
pub open spec fn location_of(s: Seq<u8>, offset: int) -> Option<SourceLocation> {
    if 0 <= offset <= s.len() {
        Some(
            SourceLocation {
                line: saturating_succ(newline_count(s.subrange(0, offset)) as int),
                column: saturating_succ(offset - line_start_before(s, offset)),
            },
        )
    } else {
        None
    }
}

/// The offset one past the last byte of line `line` (its line feed excluded).
pub open spec fn line_end_of(s: Seq<u8>, line: nat) -> Option<int> {
    match line_begin(s, line) {
        Some(b) => Some(next_newline(s, b)),
        None => None,
    }
}

/// The text of line `line`, each byte read as one character.
pub open spec fn line_text_of(s: Seq<u8>, line: nat) -> Option<Seq<char>> {
    match line_begin(s, line) {
        Some(b) => Some(bytes_as_chars(s.subrange(b, next_newline(s, b)))),
        None => None,
    }
}

proof fn lemma_newline_count_bound(s: Seq<u8>)
    ensures
        newline_count(s) <= s.len(),
    decreases s.len(),
{
    if s.len() > 0 {
        lemma_newline_count_bound(s.drop_last());
    }
}

proof fn lemma_line_start_bounds(s: Seq<u8>, offset: int)
    requires
        0 <= offset <= s.len(),
    ensures
        0 <= line_start_before(s, offset) <= offset,
    decreases offset,
{
    if offset > 0 && s[offset - 1] != 10u8 {
        lemma_line_start_bounds(s, offset - 1);
    }
}

pub proof fn lemma_next_newline_bounds(s: Seq<u8>, from: int)
    requires
        0 <= from <= s.len(),
    ensures
        from <= next_newline(s, from) <= s.len(),
    decreases s.len() - from,
{
    if from < s.len() && s[from] != 10u8 {
        lemma_next_newline_bounds(s, from + 1);
    }
}

proof fn lemma_line_begin_bounds(s: Seq<u8>, line: nat)
    ensures
        line_begin(s, line) matches Some(b) ==> 0 <= b <= s.len(),
    decreases line,
{
    if line > 1 {
        lemma_line_begin_bounds(s, (line - 1) as nat);
        if let Some(prev) = line_begin(s, (line - 1) as nat) {
            lemma_next_newline_bounds(s, prev);
        }
    }
}

/// One registered source file: its identifier, path and text.
#[derive(Debug)]
pub struct SourceFile {
    id: FileId,
    path: String,
    text: String,
    bytes: Vec<u8>,
}

/// The mathematical content of a `SourceFile`.
pub struct SourceFileView {
    pub id: FileId,
    pub path: Seq<char>,
    pub text: Seq<char>,
    pub bytes: Seq<u8>,
}

impl View for SourceFile {
    type V = SourceFileView;

    closed spec fn view(&self) -> SourceFileView {
        SourceFileView { id: self.id, path: self.path@, text: self.text@, bytes: self.bytes@ }
    }
}

impl SourceFile {
    #[verifier::type_invariant]
    closed spec fn wf(&self) -> bool {
        self.bytes@ == encode_utf8(self.text@)
    }

    /// A source file with the given identifier, path and text.
    pub fn new(id: FileId, path: &str, text: String) -> (result: Self)
        ensures
            result@.id == id,
            result@.path == path@,
            result@.text == text@,
            result@.bytes == encode_utf8(text@),
    {
        let slice = text.as_str();
        let bytes = slice.as_bytes_vec();
        assert(bytes@ == encode_utf8(slice@));
        SourceFile { id, path: to_owned_string(path), text, bytes }
    }

    pub fn id(&self) -> (result: FileId)
        ensures
            result == self@.id,
    {
        self.id
    }

    pub fn path(&self) -> (result: &str)
        ensures
            result@ == self@.path,
    {
        self.path.as_str()
    }

    pub fn text(&self) -> (result: &str)
        ensures
            result@ == self@.text,
    {
        self.text.as_str()
    }

    /// The UTF-8 bytes of the text.
    pub fn bytes(&self) -> (result: &[u8])
        ensures
            result@ == self@.bytes,
    {
        self.bytes.as_slice()
    }

    /// The one-based line and column of byte `offset`.
    pub fn location(&self, offset: usize) -> (result: Option<SourceLocation>)
        ensures
            result == location_of(self@.bytes, offset as int),
    {
        let n = self.bytes.len();
        if offset > n {
            return None;
        }
        let mut count: usize = 0;
        let mut line_start: usize = 0;
        let mut i: usize = 0;
        while i < offset
            invariant
                offset <= n == self.bytes@.len(),
                i <= offset,
                count == newline_count(self.bytes@.subrange(0, i as int)),
                line_start == line_start_before(self.bytes@, i as int),
                count <= i,
            decreases offset - i,
        {
            assert(self.bytes@.subrange(0, (i + 1) as int).drop_last() =~= self.bytes@.subrange(
                0,
                i as int,
            ));
            if self.bytes[i] == 10u8 {
                count = count + 1;
                line_start = i + 1;
            }
            i = i + 1;
        }
        proof {
            lemma_line_start_bounds(self.bytes@, offset as int);
        }
        Some(SourceLocation { line: count.saturating_add(1), column: (offset - line_start).saturating_add(1) })
    }

    /// The first line feed at or after `from`, or the text's length.
    fn find_line_end(&self, from: usize) -> (result: usize)
        requires
            from <= self@.bytes.len(),
        ensures
            result == next_newline(self@.bytes, from as int),
    {
        let n = self.bytes.len();
        let mut i = from;
        while i < n && self.bytes[i] != 10u8
            invariant
                from <= i <= n == self.bytes@.len(),
                next_newline(self.bytes@, from as int) == next_newline(self.bytes@, i as int),
            decreases n - i,
        {
            i = i + 1;
        }
        i
    }

    /// The offset at which the one-based line `line` begins.
    fn line_begin(&self, line: usize) -> (result: Option<usize>)
        ensures
            result matches Some(b) ==> line_begin(self@.bytes, line as nat) == Some(b as int),
            result is None ==> line_begin(self@.bytes, line as nat) is None,
    {
        if line == 0 {
            return None;
        }
        let n = self.bytes.len();
        let mut current: usize = 1;
        let mut begin: usize = 0;
        while current < line
            invariant
                1 <= current <= line,
                begin <= n == self.bytes@.len(),
                line_begin(self.bytes@, current as nat) == Some(begin as int),
            decreases line - current,
        {
            let nl = self.find_line_end(begin);
            proof {
                lemma_next_newline_bounds(self.bytes@, begin as int);
            }
            if nl >= n {
                proof {
                    lemma_line_begin_none_after(self.bytes@, (current + 1) as nat, line as nat);
                }
                return None;
            }
            begin = nl + 1;
            current = current + 1;
        }
        Some(begin)
    }

    /// The offset one past the last byte of line `line`.
    pub fn line_end(&self, line: usize) -> (result: Option<usize>)
        ensures
            result matches Some(e) ==> line_end_of(self@.bytes, line as nat) == Some(e as int),
            result is None ==> line_end_of(self@.bytes, line as nat) is None,
    {
        match self.line_begin(line) {
            Some(b) => {
                proof {
                    lemma_line_begin_bounds(self.bytes@, line as nat);
                }
                Some(self.find_line_end(b))
            },
            None => None,
        }
    }

    /// The text of line `line`, without its line feed.
    pub fn line_text(&self, line: usize) -> (result: Option<String>)
        ensures
            result matches Some(t) ==> line_text_of(self@.bytes, line as nat) == Some(t@),
            result is None ==> line_text_of(self@.bytes, line as nat) is None,
    {
        match self.line_begin(line) {
            Some(b) => {
                proof {
                    lemma_line_begin_bounds(self.bytes@, line as nat);
                    lemma_next_newline_bounds(self.bytes@, b as int);
                }
                let e = self.find_line_end(b);
                let mut s = String::new();
                push_bytes_as_chars(&mut s, self.bytes.as_slice(), b, e);
                assert(s@ =~= bytes_as_chars(self.bytes@.subrange(b as int, e as int)));
                Some(s)
            },
            None => None,
        }
    }
}

proof fn lemma_line_begin_none_after(s: Seq<u8>, from: nat, line: nat)
    requires
        1 <= from <= line,
        line_begin(s, from) is None,
    ensures
        line_begin(s, line) is None,
    decreases line - from,
{
    if from < line {
        lemma_line_begin_none_after(s, from, (line - 1) as nat);
    }
}

/// Owns every source file of a compilation; file identifiers are indices.
#[derive(Debug)]
pub struct SourceManager {
    files: Vec<SourceFile>,
}

impl View for SourceManager {
    type V = Seq<SourceFileView>;

    closed spec fn view(&self) -> Seq<SourceFileView> {
        self.files@.map_values(|f: SourceFile| f@)
    }
}

/// The file registered under `id`, if any.
pub open spec fn file_of(files: Seq<SourceFileView>, id: FileId) -> Option<SourceFileView> {
    if id.0 < files.len() {
        Some(files[id.0 as int])
    } else {
        None
    }
}

impl SourceManager {
    pub fn new() -> (result: Self)
        ensures
            result@ == Seq::<SourceFileView>::empty(),
    {
        let result = SourceManager { files: Vec::new() };
        assert(result@ =~= Seq::<SourceFileView>::empty());
        result
    }

    /// Registers a file and returns its identifier, the number of files
    /// registered before it.
    pub fn add_file(&mut self, path: &str, text: String) -> (result: FileId)
        requires
            old(self)@.len() < usize::MAX,
        ensures
            result == FileId(old(self)@.len() as usize),
            final(self)@.len() == old(self)@.len() + 1,
            final(self)@.subrange(0, old(self)@.len() as int) == old(self)@,
            final(self)@[old(self)@.len() as int].id == result,
            final(self)@[old(self)@.len() as int].path == path@,
            final(self)@[old(self)@.len() as int].text == text@,
            final(self)@[old(self)@.len() as int].bytes == encode_utf8(text@),
    {
        let id = FileId(self.files.len());
        let file = SourceFile::new(id, path, text);
        self.files.push(file);
        assert(self@.subrange(0, old(self)@.len() as int) =~= old(self)@);
        id
    }

    /// The file registered under `id`.
    pub fn get(&self, id: FileId) -> (result: Option<&SourceFile>)
        ensures
            result matches Some(f) ==> file_of(self@, id) == Some(f@),
            result is None ==> file_of(self@, id) is None,
    {
        if id.0 < self.files.len() {
            Some(&self.files[id.0])
        } else {
            None
        }
    }

    /// The number of registered files.
    pub fn len(&self) -> (result: usize)
        ensures
            result == self@.len(),
    {
        self.files.len()
    }
}

} // verus!
