//! The frame splitter: a text buffer that gives out complete lines and
//! keeps what follows the last newline for the next input.
//!
//! The buffer is read through a cursor. Consumed text is dropped only when
//! it makes up at least half of the buffer, and no character is scanned for
//! a newline twice, so the cost over a whole stream is linear in its length.

use crate::text::chars_of;
use crate::text::decode_lossy;
use crate::text::joined;
use crate::text::lossy_text;
use crate::text::string_of;
use crate::text::texts;
use vstd::prelude::*;

verus! {

/// The index of the first newline of `s`, or the length of `s` where it has
/// none.
pub open spec fn first_newline(s: Seq<char>) -> nat
    decreases s.len(),
{
    if s.len() == 0 {
        0
    } else if s[0] == '\n' {
        0
    } else {
        1 + first_newline(s.drop_first())
    }
}

/// Whether `s` holds a complete line.
pub open spec fn has_line(s: Seq<char>) -> bool {
    first_newline(s) < s.len()
}

/// `s` without one carriage return at its end, if it has one.
pub open spec fn strip_cr(s: Seq<char>) -> Seq<char> {
    if s.len() > 0 && s.last() == '\r' {
        s.drop_last()
    } else {
        s
    }
}

/// The first line of `s`: what precedes its first newline, without one
/// carriage return at the end.
pub open spec fn first_line(s: Seq<char>) -> Seq<char> {
    strip_cr(s.take(first_newline(s) as int))
}

/// What follows the first newline of `s`.
pub open spec fn after_first_line(s: Seq<char>) -> Seq<char> {
    s.skip(first_newline(s) as int + 1)
}

/// The complete lines of `s`, in order.
pub open spec fn lines_of(s: Seq<char>) -> Seq<Seq<char>>
    decreases s.len(),
{
    if has_line(s) {
        seq![first_line(s)] + lines_of(after_first_line(s))
    } else {
        seq![]
    }
}

/// What follows the last newline of `s`: the line that is not complete yet.
pub open spec fn remainder_of(s: Seq<char>) -> Seq<char>
    decreases s.len(),
{
    if has_line(s) {
        remainder_of(after_first_line(s))
    } else {
        s
    }
}

/// The first newline is where a newline stands with none before it.
pub proof fn lemma_first_newline_at(s: Seq<char>, k: int)
    requires
        0 <= k <= s.len(),
        forall|i: int| 0 <= i < k ==> #[trigger] s[i] != '\n',
        k < s.len() ==> s[k] == '\n',
    ensures
        first_newline(s) == k,
    decreases k,
{
    if k > 0 {
        let t = s.drop_first();
        assert forall|i: int| 0 <= i < k - 1 implies #[trigger] t[i] != '\n' by {
            assert(t[i] == s[i + 1]);
        }
        lemma_first_newline_at(t, k - 1);
    }
}

/// What `first_newline` says of the characters around it.
pub proof fn lemma_first_newline(s: Seq<char>)
    ensures
        first_newline(s) <= s.len(),
        forall|i: int| 0 <= i < first_newline(s) ==> #[trigger] s[i] != '\n',
        has_line(s) ==> s[first_newline(s) as int] == '\n',
    decreases s.len(),
{
    if s.len() > 0 && s[0] != '\n' {
        let t = s.drop_first();
        lemma_first_newline(t);
        assert forall|i: int| 0 <= i < first_newline(s) implies #[trigger] s[i] != '\n' by {
            if i > 0 {
                assert(s[i] == t[i - 1]);
            }
        }
    }
}

/// Text that is appended after a complete line leaves that line as it is.
pub proof fn lemma_first_line_of_concat(a: Seq<char>, b: Seq<char>)
    requires
        has_line(a),
    ensures
        has_line(a + b),
        first_newline(a + b) == first_newline(a),
        first_line(a + b) == first_line(a),
        after_first_line(a + b) == after_first_line(a) + b,
{
    lemma_first_newline(a);
    let k = first_newline(a) as int;
    let s = a + b;
    assert forall|i: int| 0 <= i < k implies #[trigger] s[i] != '\n' by {
        assert(s[i] == a[i]);
    }
    assert(s[k] == a[k]);
    lemma_first_newline_at(s, k);
    assert(s.take(k) == a.take(k));
    assert(s.skip(k + 1) == a.skip(k + 1) + b);
}

/// Chunk-boundary invariance of the splitter: the lines of a text are the
/// lines of any first part of it, followed by the lines of what the first
/// part left over and the rest; and the same text is left over at the end.
pub proof fn lemma_lines_of_concat(a: Seq<char>, b: Seq<char>)
    ensures
        lines_of(a + b) == lines_of(a) + lines_of(remainder_of(a) + b),
        remainder_of(a + b) == remainder_of(remainder_of(a) + b),
    decreases a.len(),
{
    if has_line(a) {
        lemma_first_line_of_concat(a, b);
        lemma_lines_of_concat(after_first_line(a), b);
    }
}

/// The lines that come out when the texts of `chunks` are appended one
/// after the other to a splitter that holds `pending`.
pub open spec fn lines_of_chunks(pending: Seq<char>, chunks: Seq<Seq<char>>) -> Seq<Seq<char>>
    decreases chunks.len(),
{
    if chunks.len() == 0 {
        seq![]
    } else {
        lines_of(pending + chunks[0]) + lines_of_chunks(
            remainder_of(pending + chunks[0]),
            chunks.drop_first(),
        )
    }
}

/// What a splitter that held `pending` holds after the texts of `chunks`.
pub open spec fn remainder_of_chunks(pending: Seq<char>, chunks: Seq<Seq<char>>) -> Seq<char>
    decreases chunks.len(),
{
    if chunks.len() == 0 {
        pending
    } else {
        remainder_of_chunks(remainder_of(pending + chunks[0]), chunks.drop_first())
    }
}

/// Chunk-boundary invariance over any number of chunks: however a text is
/// cut into chunks, the splitter gives out the lines of the whole text and
/// is left with its remainder.
pub proof fn lemma_chunk_boundary_invariance(pending: Seq<char>, chunks: Seq<Seq<char>>)
    requires
        chunks.len() > 0,
    ensures
        lines_of_chunks(pending, chunks) == lines_of(pending + joined(chunks)),
        remainder_of_chunks(pending, chunks) == remainder_of(pending + joined(chunks)),
    decreases chunks.len(),
{
    let first = chunks[0];
    let rest = chunks.drop_first();
    if rest.len() == 0 {
        assert(lines_of_chunks(remainder_of(pending + first), rest) == Seq::<Seq<char>>::empty());
        assert(remainder_of_chunks(remainder_of(pending + first), rest) == remainder_of(
            pending + first,
        ));
    } else {
        lemma_chunk_boundary_invariance(remainder_of(pending + first), rest);
        lemma_lines_of_concat(pending + first, joined(rest));
        assert((pending + first) + joined(rest) == pending + joined(chunks));
    }
}

/// The frame splitter.
pub struct FrameSplitter {
    buf: Vec<char>,
    head: usize,
    scanned: usize,
}

impl View for FrameSplitter {
    type V = Seq<char>;

    /// The text that was appended and not given out yet.
    closed spec fn view(&self) -> Seq<char> {
        self.buf@.skip(self.head as int)
    }
}

impl FrameSplitter {
    #[verifier::type_invariant]
    spec fn well_formed(self) -> bool {
        &&& self.head <= self.scanned <= self.buf.len()
        &&& forall|i: int| self.head <= i < self.scanned ==> self.buf@[i] != '\n'
    }

    /// A splitter that holds no text.
    pub fn new() -> (splitter: Self)
        ensures
            splitter@ == Seq::<char>::empty(),
    {
        FrameSplitter { buf: Vec::new(), head: 0, scanned: 0 }
    }

    fn take(&mut self) -> (taken: Self)
        ensures
            taken == *old(self),
            final(self)@ == Seq::<char>::empty(),
    {
        let mut taken = FrameSplitter::new();
        core::mem::swap(self, &mut taken);
        taken
    }

    /// Drops the text that is held.
    pub fn clear(&mut self)
        ensures
            final(self)@ == Seq::<char>::empty(),
    {
        let _ = self.take();
    }

    /// Appends `text`.
    pub fn push_chars(&mut self, text: &Vec<char>)
        ensures
            final(self)@ == old(self)@ + text@,
    {
        let taken = self.take();
        proof {
            use_type_invariant(&taken);
        }
        let FrameSplitter { mut buf, mut head, mut scanned } = taken;
        if head > 0 && head >= buf.len() - head {
            let kept = buf.split_off(head);
            buf = kept;
            scanned = scanned - head;
            head = 0;
        }
        let ghost start = buf@;
        let mut i: usize = 0;
        while i < text.len()
            invariant
                i <= text.len(),
                buf@ == start + text@.take(i as int),
            decreases text.len() - i,
        {
            buf.push(text[i]);
            i = i + 1;
        }
        *self = FrameSplitter { buf, head, scanned };
    }

    /// Appends the text of `text`.
    pub fn push_text(&mut self, text: &str)
        ensures
            final(self)@ == old(self)@ + text@,
    {
        let chars = chars_of(text);
        self.push_chars(&chars);
    }

    /// Appends the text that `bytes` decode to, ill-formed sequences
    /// replaced.
    pub fn push_bytes(&mut self, bytes: &[u8])
        ensures
            final(self)@ == old(self)@ + lossy_text(bytes@),
    {
        let text = decode_lossy(bytes);
        self.push_text(text.as_str());
    }

    /// Gives out the next complete line, if the text that is held has one.
    pub fn next_line_chars(&mut self) -> (line: Option<Vec<char>>)
        ensures
            match line {
                Some(l) => has_line(old(self)@) && l@ == first_line(old(self)@) && final(self)@
                    == after_first_line(old(self)@),
                None => !has_line(old(self)@) && final(self)@ == old(self)@,
            },
    {
        let taken = self.take();
        proof {
            use_type_invariant(&taken);
        }
        let ghost held = taken@;
        let FrameSplitter { buf, head, scanned } = taken;
        let mut i: usize = scanned;
        while i < buf.len() && buf[i] != '\n'
            invariant
                head <= i <= buf.len(),
                forall|j: int| head <= j < i ==> buf@[j] != '\n',
            decreases buf.len() - i,
        {
            i = i + 1;
        }
        proof {
            assert forall|j: int| 0 <= j < i - head implies #[trigger] held[j] != '\n' by {
                assert(held[j] == buf@[j + head]);
            }
            lemma_first_newline_at(held, i - head);
        }
        if i == buf.len() {
            *self = FrameSplitter { buf, head, scanned: i };
            None
        } else {
            let mut end: usize = i;
            if end > head && buf[end - 1] == '\r' {
                end = end - 1;
            }
            let mut line: Vec<char> = Vec::new();
            let mut k: usize = head;
            while k < end
                invariant
                    head <= k <= end <= buf.len(),
                    line@ == buf@.subrange(head as int, k as int),
                decreases end - k,
            {
                line.push(buf[k]);
                k = k + 1;
            }
            proof {
                assert(held.take(i - head) == buf@.subrange(head as int, i as int));
                assert(held.skip(i - head + 1) == buf@.skip(i + 1));
            }
            *self = FrameSplitter { buf, head: i + 1, scanned: i + 1 };
            Some(line)
        }
    }

    /// Gives out the next complete line as a string.
    pub fn next_line(&mut self) -> (line: Option<String>)
        ensures
            match line {
                Some(l) => has_line(old(self)@) && l@ == first_line(old(self)@) && final(self)@
                    == after_first_line(old(self)@),
                None => !has_line(old(self)@) && final(self)@ == old(self)@,
            },
    {
        match self.next_line_chars() {
            Some(chars) => Some(string_of(&chars)),
            None => None,
        }
    }

    fn drain_lines(&mut self) -> (lines: Vec<String>)
        ensures
            texts(lines@) == lines_of(old(self)@),
            final(self)@ == remainder_of(old(self)@),
            !has_line(final(self)@),
    {
        let mut lines: Vec<String> = Vec::new();
        loop
            invariant
                texts(lines@) + lines_of(self@) == lines_of(old(self)@),
                remainder_of(self@) == remainder_of(old(self)@),
            ensures
                texts(lines@) == lines_of(old(self)@),
                self@ == remainder_of(old(self)@),
                !has_line(self@),
            decreases self@.len(),
        {
            let ghost held = self@;
            match self.next_line() {
                Some(line) => {
                    lines.push(line);
                    proof {
                        lemma_first_newline(held);
                    }
                },
                None => {
                    break ;
                },
            }
        }
        lines
    }

    /// Appends `text` and gives out every line that is then complete. What
    /// stays is the line that is not complete yet.
    pub fn append_text(&mut self, text: &str) -> (lines: Vec<String>)
        ensures
            texts(lines@) == lines_of(old(self)@ + text@),
            final(self)@ == remainder_of(old(self)@ + text@),
            !has_line(final(self)@),
    {
        self.push_text(text);
        self.drain_lines()
    }

    /// Appends the text that `new_bytes` decode to, ill-formed sequences
    /// replaced, and gives out every line that is then complete. What stays
    /// is the line that is not complete yet.
    pub fn append(&mut self, new_bytes: &[u8]) -> (lines: Vec<String>)
        ensures
            texts(lines@) == lines_of(old(self)@ + lossy_text(new_bytes@)),
            final(self)@ == remainder_of(old(self)@ + lossy_text(new_bytes@)),
            !has_line(final(self)@),
    {
        self.push_bytes(new_bytes);
        self.drain_lines()
    }
}

} // verus!
