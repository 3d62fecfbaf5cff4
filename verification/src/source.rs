//! Source text: the buffer, cursors into it, a reader that walks it character by
//! character, and spans of text.

use vstd::prelude::*;
use crate::chars::{len_utf8, spec_utf8_len, spec_len_utf8, lemma_utf8_len_prefix_strict};
use crate::text::{str_to_chars, chars_to_string};

verus! {

/// Index just past the line that starts at `i`: the first `'\n'` at or after `i`,
/// or the end of the text.
pub open spec fn line_end(s: Seq<char>, i: int) -> int
    decreases s.len() - i,
{
    if i >= s.len() {
        s.len() as int
    } else if s[i] == '\n' {
        i
    } else {
        line_end(s, i + 1)
    }
}

/// The lines of `s` from index `i` on, split as `str::lines` splits them: at `"\n"`
/// or `"\r\n"`, with no empty line after a final line ending.
pub open spec fn spec_lines_from(s: Seq<char>, i: int) -> Seq<Seq<char>>
    decreases s.len() - i,
{
    if i < 0 || i >= s.len() {
        Seq::empty()
    } else {
        let e = line_end(s, i);
        let raw = s.subrange(i, e);
        let line = if e < s.len() && raw.len() > 0 && raw.last() == '\r' {
            raw.drop_last()
        } else {
            raw
        };
        if e < i || e >= s.len() {
            seq![line]
        } else {
            seq![line] + spec_lines_from(s, e + 1)
        }
    }
}

/// The lines of `s`, as `str::lines` gives them.
pub open spec fn spec_lines(s: Seq<char>) -> Seq<Seq<char>> {
    spec_lines_from(s, 0)
}

pub proof fn lemma_line_end_bounds(s: Seq<char>, i: int)
    requires
        0 <= i,
    ensures
        i <= line_end(s, i) || i > s.len(),
        line_end(s, i) <= s.len(),
        i <= s.len() ==> i <= line_end(s, i),
        line_end(s, i) < s.len() ==> s[line_end(s, i)] == '\n',
        forall|k: int| i <= k < line_end(s, i) ==> s[k] != '\n',
    decreases s.len() - i,
{
    if i < s.len() && s[i] != '\n' {
        lemma_line_end_bounds(s, i + 1);
    }
}

/// A source file: its path and its text.
pub struct SourceBuffer {
    path: String,
    buffer: String,
    chars: Vec<char>,
}

impl SourceBuffer {
    #[verifier::type_invariant]
    spec fn inv(&self) -> bool {
        &&& self.chars@ == self.buffer@
        &&& self.chars@.len() < usize::MAX
        &&& spec_utf8_len(self.chars@) <= usize::MAX
    }

    /// The text of the buffer.
    pub closed spec fn text(&self) -> Seq<char> {
        self.buffer@
    }

    /// The path of the file the text comes from.
    pub closed spec fn path_view(&self) -> Seq<char> {
        self.path@
    }

    /// A buffer holding `buffer`, read from `path`.
    pub fn new(path: String, buffer: String) -> (r: Self)
        requires
            buffer@.len() < usize::MAX,
            spec_utf8_len(buffer@) <= usize::MAX,
        ensures
            r.text() == buffer@,
            r.path_view() == path@,
    {
        let chars = str_to_chars(buffer.as_str());
        SourceBuffer { path, buffer, chars }
    }

    pub fn path(&self) -> (r: &String)
        ensures
            r@ == self.path_view(),
    {
        &self.path
    }

    pub fn buffer(&self) -> (r: &String)
        ensures
            r@ == self.text(),
    {
        &self.buffer
    }

    /// The number of characters of the text.
    pub fn len(&self) -> (r: usize)
        ensures
            r == self.text().len(),
            r < usize::MAX,
            spec_utf8_len(self.text()) <= usize::MAX,
    {
        proof { use_type_invariant(self); }
        self.chars.len()
    }

    /// The character at index `i` of the text.
    pub fn char_at(&self, i: usize) -> (r: char)
        requires
            i < self.text().len(),
        ensures
            r == self.text()[i as int],
    {
        proof { use_type_invariant(self); }
        self.chars[i]
    }

    /// The characters `text[from..to]` as a string.
    pub fn substring(&self, from: usize, to: usize) -> (r: String)
        requires
            from <= to <= self.text().len(),
        ensures
            r@ == self.text().subrange(from as int, to as int),
    {
        proof { use_type_invariant(self); }
        chars_to_string(&self.chars, from, to)
    }

    /// The line numbered `line` (counted from 1) of the text, as `str::lines` splits it;
    /// `None` when the text has fewer lines.
    pub fn get_line(&self, line: usize) -> (r: Option<String>)
        requires
            line >= 1,
        ensures
            match r {
                Some(l) => line - 1 < spec_lines(self.text()).len() && l@ == spec_lines(self.text())[line - 1],
                None => line - 1 >= spec_lines(self.text()).len(),
            },
    {
        proof { use_type_invariant(self); }
        let ghost s = self.text();
        let n = self.chars.len();
        let mut i: usize = 0;
        let mut j: usize = 0;
        while i < n
            invariant
                s == self.chars@,
                s == self.text(),
                n == s.len(),
                i <= n,
                j <= line - 1,
                spec_lines(s).len() == j + spec_lines_from(s, i as int).len(),
                forall|t: int| 0 <= t < spec_lines_from(s, i as int).len()
                    ==> spec_lines_from(s, i as int)[t] == #[trigger] spec_lines(s)[j + t],
            decreases n - i,
        {
            let mut e = i;
            while e < n && self.chars[e] != '\n'
                invariant
                    s == self.chars@,
                    n == s.len(),
                    i <= e <= n,
                    forall|k: int| i <= k < e ==> s[k] != '\n',
                decreases n - e,
            {
                e += 1;
            }
            proof {
                lemma_line_end_at(s, i as int, e as int);
                if e < n {
                    assert(spec_lines_from(s, i as int) == seq![spec_lines_from(s, i as int)[0]]
                        + spec_lines_from(s, e + 1));
                } else {
                    assert(spec_lines_from(s, i as int).len() == 1);
                }
            }
            if j == line - 1 {
                let mut stop = e;
                if e < n && e > i && self.chars[e - 1] == '\r' {
                    stop = e - 1;
                }
                let l = chars_to_string(&self.chars, i, stop);
                proof {
                    let raw = s.subrange(i as int, e as int);
                    assert(line_end(s, i as int) == e);
                    if raw.len() > 0 {
                        assert(raw.last() == s[e - 1]);
                    }
                    let ln = if e < n && raw.len() > 0 && raw.last() == '\r' { raw.drop_last() } else { raw };
                    assert(spec_lines_from(s, i as int)[0] == ln);
                    if e < n && raw.len() > 0 && raw.last() == '\r' {
                        assert(raw.drop_last() =~= s.subrange(i as int, stop as int));
                    } else {
                        assert(raw =~= s.subrange(i as int, stop as int));
                    }
                    assert(spec_lines(s)[j + 0] == spec_lines_from(s, i as int)[0]);
                }
                return Some(l);
            }
            proof {
                if e < n {
                assert forall|t: int| 0 <= t < spec_lines_from(s, e + 1).len()
                    implies spec_lines_from(s, e + 1)[t] == #[trigger] spec_lines(s)[(j + 1) + t] by {
                    assert(spec_lines_from(s, e + 1)[t] == spec_lines_from(s, i as int)[t + 1]);
                    assert(spec_lines(s)[j + (t + 1)] == spec_lines_from(s, i as int)[t + 1]);
                }
                }
            }
            j += 1;
            i = if e < n { e + 1 } else { n };
            proof {
                if e >= n {
                    assert(spec_lines_from(s, n as int) == Seq::<Seq<char>>::empty());
                }
            }
        }
        proof {
            assert(spec_lines_from(s, i as int) == Seq::<Seq<char>>::empty());
        }
        None
    }
}

/// `line_end` is the first newline at or after `i`.
pub proof fn lemma_line_end_at(s: Seq<char>, i: int, e: int)
    requires
        0 <= i <= e <= s.len(),
        forall|k: int| i <= k < e ==> s[k] != '\n',
        e == s.len() || s[e] == '\n',
    ensures
        line_end(s, i) == e,
    decreases e - i,
{
    if i < e {
        lemma_line_end_at(s, i + 1, e);
    }
}

} // verus!

verus! {

/// A position in a source text: the index of the current character, and its line and
/// column (both counted from 1; a newline character has column 0 on the line it opens).
#[derive(Clone, Copy, Debug, PartialEq, Eq, Structural)]
pub struct SourceCursor {
    pub pos: usize,
    pub line: usize,
    pub collumn: usize,
}

/// A place in a source text: the index of a character, its line and its column.
#[derive(Clone, Copy, Debug, PartialEq, Eq, PartialOrd, Ord)]
pub struct SourcePos {
    pub index: usize,
    pub line: usize,
    pub collumn: usize,
}

/// A cursor that can stand in a text of `len` characters.
pub open spec fn cursor_ok(len: nat, c: SourceCursor) -> bool {
    &&& len < usize::MAX
    &&& c.pos <= len
    &&& 1 <= c.line <= c.pos + 1
    &&& c.collumn <= c.pos + 1
}

/// The cursor at the start of a text.
pub open spec fn spec_begin() -> SourceCursor {
    SourceCursor { pos: 0, line: 1, collumn: 1 }
}

/// The cursor after moving one character forward in `text`; at the end it stays put.
/// Reaching a newline opens a new line at column 0; any other character is one column on.
pub open spec fn spec_step(text: Seq<char>, c: SourceCursor) -> SourceCursor {
    if c.pos < text.len() {
        let np = (c.pos + 1) as usize;
        if np < text.len() && text[np as int] == '\n' {
            SourceCursor { pos: np, line: (c.line + 1) as usize, collumn: 0 }
        } else if np < text.len() {
            SourceCursor { pos: np, line: c.line, collumn: (c.collumn + 1) as usize }
        } else {
            SourceCursor { pos: np, line: c.line, collumn: c.collumn }
        }
    } else {
        c
    }
}

/// The cursor after `n` steps forward.
pub open spec fn spec_advance(text: Seq<char>, c: SourceCursor, n: nat) -> SourceCursor
    decreases n,
{
    if n == 0 {
        c
    } else {
        spec_advance(text, spec_step(text, c), (n - 1) as nat)
    }
}

/// The character under a cursor, if any.
pub open spec fn spec_peek(text: Seq<char>, c: SourceCursor) -> Option<char> {
    if c.pos < text.len() {
        Some(text[c.pos as int])
    } else {
        None
    }
}

pub proof fn lemma_step_ok(text: Seq<char>, c: SourceCursor)
    requires
        cursor_ok(text.len(), c),
    ensures
        cursor_ok(text.len(), spec_step(text, c)),
        spec_step(text, c).pos == if c.pos < text.len() { c.pos + 1 } else { c.pos as int },
{
}

pub proof fn lemma_advance(text: Seq<char>, c: SourceCursor, n: nat)
    requires
        cursor_ok(text.len(), c),
    ensures
        cursor_ok(text.len(), spec_advance(text, c, n)),
        spec_advance(text, c, n).pos == if c.pos + n <= text.len() { c.pos + n } else { text.len() as int },
    decreases n,
{
    if n > 0 {
        lemma_step_ok(text, c);
        lemma_advance(text, spec_step(text, c), (n - 1) as nat);
    }
}

/// Advancing `a` steps and then `b` steps is advancing `a + b` steps.
pub proof fn lemma_advance_add(text: Seq<char>, c: SourceCursor, a: nat, b: nat)
    ensures
        spec_advance(text, spec_advance(text, c, a), b) == spec_advance(text, c, a + b),
    decreases a,
{
    if a > 0 {
        lemma_advance_add(text, spec_step(text, c), (a - 1) as nat, b);
        assert((a - 1) as nat + b == (a + b - 1) as nat);
    }
}

/// Advancing one more step.
pub proof fn lemma_advance_step(text: Seq<char>, c: SourceCursor, n: nat)
    ensures
        spec_step(text, spec_advance(text, c, n)) == spec_advance(text, c, n + 1),
{
    lemma_advance_add(text, c, n, 1);
    reveal_with_fuel(spec_advance, 2);
    assert(spec_advance(text, spec_advance(text, c, n), 1) == spec_step(text, spec_advance(text, c, n)));
}

/// Walks a source text one character at a time.
pub struct SourceReader<'a> {
    source: &'a SourceBuffer,
    current_cursor: SourceCursor,
}

impl<'a> SourceReader<'a> {
    #[verifier::type_invariant]
    spec fn inv(&self) -> bool {
        cursor_ok(self.source.text().len(), self.current_cursor)
    }

    /// The text being read.
    pub closed spec fn text(&self) -> Seq<char> {
        self.source.text()
    }

    /// The buffer being read.
    pub closed spec fn source_view(&self) -> SourceBuffer {
        *self.source
    }

    /// Where the reader stands.
    pub closed spec fn cursor(&self) -> SourceCursor {
        self.current_cursor
    }

    /// A reader at the start of `source`.
    pub fn new(source: &'a SourceBuffer) -> (r: SourceReader<'a>)
        ensures
            r.source_view() == *source,
            r.text() == source.text(),
            r.cursor() == spec_begin(),
    {
        proof { use_type_invariant(source); }
        SourceReader { source, current_cursor: SourceCursor { pos: 0, line: 1, collumn: 1 } }
    }

    pub fn source(&self) -> (r: &'a SourceBuffer)
        ensures
            *r == self.source_view(),
            r.text() == self.text(),
    {
        self.source
    }

    /// The character under the cursor, `None` at the end of the text.
    pub fn peek_char(&self) -> (r: Option<char>)
        ensures
            r == spec_peek(self.text(), self.cursor()),
    {
        proof { use_type_invariant(self); }
        if self.current_cursor.pos < self.source.len() {
            Some(self.source.char_at(self.current_cursor.pos))
        } else {
            None
        }
    }

    /// Moves one character forward and returns the character now under the cursor.
    pub fn next_char(&mut self) -> (r: Option<char>)
        ensures
            final(self).cursor() == spec_step(old(self).text(), old(self).cursor()),
            final(self).text() == old(self).text(),
            final(self).source_view() == old(self).source_view(),
            r == spec_peek(final(self).text(), final(self).cursor()),
    {
        proof { use_type_invariant(&*self); }
        let len = self.source.len();
        let c = self.current_cursor;
        if c.pos < len {
            let np = c.pos + 1;
            if np < len && self.source.char_at(np) == '\n' {
                self.current_cursor = SourceCursor { pos: np, line: c.line + 1, collumn: 0 };
            } else if np < len {
                self.current_cursor = SourceCursor { pos: np, line: c.line, collumn: c.collumn + 1 };
            } else {
                self.current_cursor = SourceCursor { pos: np, line: c.line, collumn: c.collumn };
            }
        }
        self.peek_char()
    }

    pub fn get_cursor(&self) -> (r: SourceCursor)
        ensures
            r == self.cursor(),
            cursor_ok(self.text().len(), r),
    {
        proof { use_type_invariant(self); }
        self.current_cursor
    }

    /// Moves to `cursor`, a cursor of the same text.
    pub fn goto(&mut self, cursor: SourceCursor)
        requires
            cursor_ok(old(self).text().len(), cursor),
        ensures
            final(self).cursor() == cursor,
            final(self).text() == old(self).text(),
            final(self).source_view() == old(self).source_view(),
    {
        self.current_cursor = cursor;
    }

    /// Moves back to the start of the text.
    pub fn goto_begin(&mut self)
        ensures
            final(self).cursor() == spec_begin(),
            final(self).text() == old(self).text(),
            final(self).source_view() == old(self).source_view(),
    {
        proof { use_type_invariant(&*self); }
        self.goto(SourceCursor { pos: 0, line: 1, collumn: 1 })
    }

    /// The span of `size` bytes that starts at the cursor.
    pub fn read_span(&self, size: usize) -> (r: Option<SourceSpan>)
        requires
            spec_span_exists(self.text(), self.cursor().pos as int, size as nat),
        ensures
            r matches Some(sp) && spec_span_of(self.text(), self.cursor(), size as nat, sp),
    {
        Some(SourceSpan::at(self.source, self.current_cursor, size))
    }
}

/// Some run of characters from `pos` on is exactly `size` bytes long in UTF-8.
pub open spec fn spec_span_exists(text: Seq<char>, pos: int, size: nat) -> bool {
    exists|k: int| 0 <= k && pos + k <= text.len() && spec_utf8_len(#[trigger] text.subrange(pos, pos + k)) == size
}

/// `sp` is the span of `size` bytes of `text` starting at cursor `start`.
pub open spec fn spec_span_of(text: Seq<char>, start: SourceCursor, size: nat, sp: SourceSpan) -> bool {
    &&& sp.start == start
    &&& sp.size == size
    &&& start.pos + sp.data@.len() <= text.len()
    &&& sp.data@ == text.subrange(start.pos as int, start.pos + sp.data@.len())
    &&& spec_utf8_len(sp.data@) == size
}

/// A run of source text: where it starts, its length in bytes, and its characters.
#[derive(Clone, Debug)]
pub struct SourceSpan {
    pub start: SourceCursor,
    pub size: usize,
    pub data: String,
}

impl SourceSpan {
    /// The span of `size` bytes of `source` that starts at `start`.
    pub fn at(source: &SourceBuffer, start: SourceCursor, size: usize) -> (r: SourceSpan)
        requires
            start.pos <= source.text().len(),
            spec_span_exists(source.text(), start.pos as int, size as nat),
        ensures
            spec_span_of(source.text(), start, size as nat, r),
    {
        let ghost text = source.text();
        let n = source.len();
        let mut k = start.pos;
        let mut acc: usize = 0;
        let ghost w = choose|w: int| 0 <= w && start.pos + w <= text.len()
            && spec_utf8_len(#[trigger] text.subrange(start.pos as int, start.pos + w)) == size;
        while acc < size
            invariant
                text == source.text(),
                n == text.len(),
                start.pos <= k <= n,
                0 <= w && start.pos + w <= text.len(),
                spec_utf8_len(text.subrange(start.pos as int, start.pos + w)) == size,
                acc == spec_utf8_len(text.subrange(start.pos as int, k as int)),
                k <= start.pos + w,
            decreases n - k,
        {
            let ghost sub = text.subrange(start.pos as int, start.pos + w);
            proof {
                assert(text.subrange(start.pos as int, k as int) =~= sub.take(k - start.pos));
                assert(sub =~= sub.take(w));
                if k == start.pos + w {
                    assert(false);
                }
            }
            let c = source.char_at(k);
            let l = len_utf8(c);
            proof {
                lemma_utf8_len_push_sub(text, start.pos as int, k as int);
                assert(text.subrange(start.pos as int, k + 1) =~= sub.take(k + 1 - start.pos));
                if k + 1 < start.pos + w {
                    lemma_utf8_len_prefix_strict(sub, k + 1 - start.pos, w);
                }
            }
            acc = acc + l;
            k = k + 1;
        }
        proof {
            let sub = text.subrange(start.pos as int, start.pos + w);
            assert(text.subrange(start.pos as int, k as int) =~= sub.take(k - start.pos));
            assert(sub =~= sub.take(w));
            if k < start.pos + w {
                lemma_utf8_len_prefix_strict(sub, k - start.pos, w);
            }
        }
        let data = source.substring(start.pos, k);
        SourceSpan { start, size, data }
    }
}

/// Two runs from the same index with the same UTF-8 length have the same length.
pub proof fn lemma_span_len_unique(text: Seq<char>, pos: int, k1: int, k2: int)
    requires
        0 <= pos,
        0 <= k1,
        0 <= k2,
        pos + k1 <= text.len(),
        pos + k2 <= text.len(),
        spec_utf8_len(text.subrange(pos, pos + k1)) == spec_utf8_len(text.subrange(pos, pos + k2)),
    ensures
        k1 == k2,
{
    let big = if k1 < k2 { k2 } else { k1 };
    let sub = text.subrange(pos, pos + big);
    assert(text.subrange(pos, pos + k1) =~= sub.take(k1));
    assert(text.subrange(pos, pos + k2) =~= sub.take(k2));
    if k1 < k2 {
        lemma_utf8_len_prefix_strict(sub, k1, k2);
    } else if k2 < k1 {
        lemma_utf8_len_prefix_strict(sub, k2, k1);
    }
}

pub proof fn lemma_utf8_len_push_sub(text: Seq<char>, from: int, k: int)
    requires
        0 <= from <= k < text.len(),
    ensures
        spec_utf8_len(text.subrange(from, k + 1)) == spec_utf8_len(text.subrange(from, k)) + spec_len_utf8(text[k]),
{
    assert(text.subrange(from, k + 1) =~= text.subrange(from, k).push(text[k]));
    crate::chars::lemma_utf8_len_push(text.subrange(from, k), text[k]);
}

} // verus!
