//! The incremental segmenter: an append-only text buffer with a cursor, cut
//! into plain and fenced blocks as their closing delimiters arrive.

use vstd::prelude::*;
use vstd::string::*;
use vstd::utf8::*;
use crate::scan::{
    find_bytes, first_occurrence, is_first_occurrence, lemma_first_occurrence,
    lemma_first_occurrence_append, lemma_first_occurrence_is, lemma_occurs_at_append, occurs_at,
};
use crate::text::{
    bytes_of, lemma_boundary_after_ascii_run, lemma_boundary_append, lemma_boundary_at_ascii,
    lemma_bytes_of_concat, lemma_text_of_bytes_of, text_of,
};

verus! {

/// The three backticks that open and close a block of code.
pub open spec fn fence() -> Seq<u8> {
    seq![0x60u8, 0x60u8, 0x60u8]
}

/// The two line feeds that end a paragraph.
pub open spec fn blank_line() -> Seq<u8> {
    seq![0x0au8, 0x0au8]
}

/// The delimiters are the bytes of three backticks and of two line feeds.
pub proof fn lemma_delimiter_texts()
    ensures
        fence() == bytes_of("```"@),
        blank_line() == bytes_of("\n\n"@),
        is_ascii_chars("```"@),
        is_ascii_chars("\n\n"@),
{
    reveal_strlit("```");
    reveal_strlit("\n\n");
    is_ascii_chars_encode_utf8("```"@);
    is_ascii_chars_encode_utf8("\n\n"@);
    assert(fence() =~= bytes_of("```"@));
    assert(blank_line() =~= bytes_of("\n\n"@));
}

/// Which delimiter rule applies to the bytes that are not yet consumed.
#[derive(PartialEq, Eq, Clone, Copy, Debug, Structural)]
pub enum MarkdownContext {
    Normal,
    Code,
}

/// A finished block, as the segmenter hands it out.
#[derive(PartialEq, Eq, Debug)]
pub enum Content {
    Code(String),
    Normal(String),
}

/// The finished block as mathematical text.
pub enum ContentView {
    Code(Seq<char>),
    Normal(Seq<char>),
}

impl View for Content {
    type V = ContentView;

    open spec fn view(&self) -> ContentView {
        match self {
            Content::Code(s) => ContentView::Code(s@),
            Content::Normal(s) => ContentView::Normal(s@),
        }
    }
}

/// The delimiter that ends the current plain block, with its byte offset.
#[derive(PartialEq, Eq, Clone, Copy, Debug, Structural)]
pub enum ContentFound {
    NewParagraph(usize),
    CodeSyntax(usize),
}

/// The delimiter as a mathematical value.
pub enum Delimiter {
    NewParagraph(int),
    CodeSyntax(int),
}

impl View for ContentFound {
    type V = Delimiter;

    open spec fn view(&self) -> Delimiter {
        match self {
            ContentFound::NewParagraph(i) => Delimiter::NewParagraph(*i as int),
            ContentFound::CodeSyntax(i) => Delimiter::CodeSyntax(*i as int),
        }
    }
}

/// The delimiter that ends a plain block starting at the head of `s`: the
/// first fence or the first blank line, whichever starts at the smaller
/// offset; none where `s` holds neither.
pub open spec fn next_delimiter(s: Seq<u8>) -> Option<Delimiter> {
    match (first_occurrence(s, fence()), first_occurrence(s, blank_line())) {
        (Some(f), Some(b)) => if f < b {
            Some(Delimiter::CodeSyntax(f))
        } else {
            Some(Delimiter::NewParagraph(b))
        },
        (Some(f), None) => Some(Delimiter::CodeSyntax(f)),
        (None, Some(b)) => Some(Delimiter::NewParagraph(b)),
        (None, None) => None,
    }
}

/// Finds either a blank line or a fence in `s`, whichever comes first.
pub fn normal_next_chunk(s: &str) -> (r: Option<ContentFound>)
    ensures
        match r {
            Some(found) => next_delimiter(s.spec_bytes()) == Some(found@),
            None => next_delimiter(s.spec_bytes()) is None,
        },
        match r {
            Some(ContentFound::CodeSyntax(i)) => {
                &&& is_first_occurrence(s.spec_bytes(), fence(), i as int)
                &&& forall|j: int| 0 <= j <= i ==> !occurs_at(s.spec_bytes(), blank_line(), j)
            },
            Some(ContentFound::NewParagraph(i)) => {
                &&& is_first_occurrence(s.spec_bytes(), blank_line(), i as int)
                &&& forall|j: int| 0 <= j <= i ==> !occurs_at(s.spec_bytes(), fence(), j)
            },
            None => {
                &&& forall|j: int| !occurs_at(s.spec_bytes(), fence(), j)
                &&& forall|j: int| !occurs_at(s.spec_bytes(), blank_line(), j)
            },
        },
{
    let bytes = s.as_bytes();
    let fence_pattern: [u8; 3] = [0x60u8, 0x60u8, 0x60u8];
    let blank_pattern: [u8; 2] = [0x0au8, 0x0au8];
    let z1 = find_bytes(bytes, fence_pattern.as_slice());
    let z2 = find_bytes(bytes, blank_pattern.as_slice());
    proof {
        assert(fence_pattern@ =~= fence());
        assert(blank_pattern@ =~= blank_line());
        lemma_first_occurrence(bytes@, fence());
        lemma_first_occurrence(bytes@, blank_line());
        lemma_delimiters_differ(bytes@);
    }
    match (z1, z2) {
        (Some(z1), Some(z2)) => {
            if z1 < z2 {
                Some(ContentFound::CodeSyntax(z1))
            } else {
                Some(ContentFound::NewParagraph(z2))
            }
        },
        (Some(z1), None) => Some(ContentFound::CodeSyntax(z1)),
        (None, Some(z2)) => Some(ContentFound::NewParagraph(z2)),
        (None, None) => None,
    }
}

/// A fence and a blank line never start at the same offset.
pub proof fn lemma_delimiters_differ(s: Seq<u8>)
    ensures
        forall|j: int| !(occurs_at(s, fence(), j) && occurs_at(s, blank_line(), j)),
{
    assert forall|j: int| !(occurs_at(s, fence(), j) && occurs_at(s, blank_line(), j)) by {
        if occurs_at(s, fence(), j) && occurs_at(s, blank_line(), j) {
            assert(s.subrange(j, j + 3)[0] == s[j]);
            assert(s.subrange(j, j + 2)[0] == s[j]);
            assert(fence()[0] == 0x60u8);
            assert(blank_line()[0] == 0x0au8);
        }
    }
}

/// The segmenter as a mathematical value: all the text received, the byte
/// offset up to which it has been handed out, and the rule in force.
pub struct StreamView {
    pub text: Seq<char>,
    pub cursor: int,
    pub mode: MarkdownContext,
}

/// One step of the segmenter: the block handed out and the state after it.
pub struct Step {
    pub content: ContentView,
    pub next: StreamView,
}

impl StreamView {
    /// The state of a segmenter that has received nothing.
    pub open spec fn empty() -> StreamView {
        StreamView { text: Seq::empty(), cursor: 0, mode: MarkdownContext::Normal }
    }

    /// The bytes received so far.
    pub open spec fn bytes(self) -> Seq<u8> {
        bytes_of(self.text)
    }

    /// The cursor lies inside the buffer, between two characters.
    pub open spec fn wf(self) -> bool {
        &&& 0 <= self.cursor <= self.bytes().len()
        &&& is_char_boundary(self.bytes(), self.cursor)
    }

    /// The bytes behind the cursor.
    pub open spec fn pending(self) -> Seq<u8> {
        if 0 <= self.cursor <= self.bytes().len() {
            self.bytes().subrange(self.cursor, self.bytes().len() as int)
        } else {
            Seq::empty()
        }
    }

    /// The text behind the cursor: received, but not yet part of a block.
    pub open spec fn tail(self) -> Seq<char> {
        text_of(self.pending())
    }

    /// The state after `chunk` has been received.
    pub open spec fn appended(self, chunk: Seq<char>) -> StreamView {
        StreamView { text: self.text + chunk, cursor: self.cursor, mode: self.mode }
    }

    /// The state after `consumed` more bytes have been handed out.
    pub open spec fn advanced(self, consumed: int, mode: MarkdownContext) -> StreamView {
        StreamView { text: self.text, cursor: self.cursor + consumed, mode }
    }

    /// The next block that can be cut off the pending bytes, if their closing
    /// delimiter has arrived. In plain text a block ends at the first blank
    /// line or fence, whichever comes first; a fence switches to code. In code
    /// a block ends at the next fence, which switches back to plain text. The
    /// delimiter is consumed and belongs to no block.
    pub open spec fn step(self) -> Option<Step> {
        let p = self.pending();
        match self.mode {
            MarkdownContext::Normal => match next_delimiter(p) {
                None => None,
                Some(Delimiter::NewParagraph(i)) => Some(
                    Step {
                        content: ContentView::Normal(text_of(p.subrange(0, i))),
                        next: self.advanced(i + 2, MarkdownContext::Normal),
                    },
                ),
                Some(Delimiter::CodeSyntax(i)) => Some(
                    Step {
                        content: ContentView::Normal(text_of(p.subrange(0, i))),
                        next: self.advanced(i + 3, MarkdownContext::Code),
                    },
                ),
            },
            MarkdownContext::Code => match first_occurrence(p, fence()) {
                None => None,
                Some(i) => Some(
                    Step {
                        content: ContentView::Code(text_of(p.subrange(0, i))),
                        next: self.advanced(i + 3, MarkdownContext::Normal),
                    },
                ),
            },
        }
    }
}

/// A step is taken only with the cursor inside the buffer. It keeps the text,
/// moves the cursor forward over at least the delimiter, and leaves it inside
/// the buffer.
pub proof fn lemma_step_advances(v: StreamView)
    requires
        v.step() is Some,
    ensures
        0 <= v.cursor <= v.bytes().len(),
        v.step()->0.next.text == v.text,
        v.cursor + 2 <= v.step()->0.next.cursor <= v.bytes().len(),
{
    let p = v.pending();
    lemma_first_occurrence(p, fence());
    lemma_first_occurrence(p, blank_line());
}

/// The text of a block.
pub open spec fn content_text(content: ContentView) -> Seq<char> {
    match content {
        ContentView::Code(text) => text,
        ContentView::Normal(text) => text,
    }
}

/// The delimiter that the step from `v` consumes behind its block: in plain
/// text the blank line that ends a paragraph or the fence that opens code, in
/// code the fence that closes it.
pub open spec fn consumed_delimiter(v: StreamView) -> Seq<u8>
    recommends
        v.step() is Some,
{
    match v.mode {
        MarkdownContext::Normal => if v.step()->0.next.mode == MarkdownContext::Code {
            fence()
        } else {
            blank_line()
        },
        MarkdownContext::Code => fence(),
    }
}

/// A step loses nothing. The bytes that it moves the cursor over are the bytes
/// of the block that it hands out, followed by the delimiter, and the cursor
/// comes to lie between two characters again. So the blocks handed out, each
/// with its delimiter, followed by the pending bytes, are the bytes received.
pub proof fn lemma_step_consumes(v: StreamView)
    requires
        v.wf(),
        v.step() is Some,
    ensures
        v.step()->0.next.wf(),
        v.bytes().subrange(v.cursor, v.step()->0.next.cursor) == bytes_of(
            content_text(v.step()->0.content),
        ) + consumed_delimiter(v),
        v.step()->0.next.pending() == v.pending().subrange(
            v.step()->0.next.cursor - v.cursor,
            v.pending().len() as int,
        ),
{
    let step = v.step()->0;
    let bytes = v.bytes();
    let p = v.pending();
    let delimiter = consumed_delimiter(v);
    let i = step.next.cursor - v.cursor - delimiter.len();
    lemma_step_advances(v);
    lemma_text_of_bytes_of(v.text);
    lemma_next_delimiter(p);
    lemma_first_occurrence(p, fence());
    assert(occurs_at(p, delimiter, i));
    assert(is_ascii_delimiter(delimiter));
    lemma_boundary_after_delimiter(v, i, delimiter);
    // The pending bytes are text, and so are those in front of the delimiter.
    valid_utf8_split(bytes, v.cursor);
    assert(p.subrange(i, i + delimiter.len())[0] == p[i]);
    lemma_boundary_at_ascii(p, i);
    valid_utf8_split(p, i);
    decode_utf8_encode_utf8(p.subrange(0, i));
    assert(content_text(step.content) == text_of(p.subrange(0, i)));
    assert(bytes.subrange(v.cursor, step.next.cursor) =~= p.subrange(0, i) + delimiter) by {
        assert(p.subrange(i, i + delimiter.len()) == delimiter);
        assert forall|k: int| 0 <= k < delimiter.len() implies bytes[v.cursor + i + k]
            == delimiter[k] by {
            assert(p.subrange(i, i + delimiter.len())[k] == p[i + k]);
        }
    }
    assert(step.next.pending() =~= p.subrange(step.next.cursor - v.cursor, p.len() as int));
}

/// What `next_delimiter` returns, said of each delimiter by itself: the one
/// returned is the first of its kind, and up to its offset none of the other
/// kind starts.
pub proof fn lemma_next_delimiter(s: Seq<u8>)
    ensures
        match next_delimiter(s) {
            Some(Delimiter::CodeSyntax(i)) => {
                &&& is_first_occurrence(s, fence(), i)
                &&& forall|j: int| 0 <= j <= i ==> !occurs_at(s, blank_line(), j)
            },
            Some(Delimiter::NewParagraph(i)) => {
                &&& is_first_occurrence(s, blank_line(), i)
                &&& forall|j: int| 0 <= j <= i ==> !occurs_at(s, fence(), j)
            },
            None => {
                &&& forall|j: int| !occurs_at(s, fence(), j)
                &&& forall|j: int| !occurs_at(s, blank_line(), j)
            },
        },
{
    lemma_first_occurrence(s, fence());
    lemma_first_occurrence(s, blank_line());
    lemma_delimiters_differ(s);
}

/// A first fence with no blank line up to its offset is the next delimiter.
pub proof fn lemma_next_delimiter_is_fence(s: Seq<u8>, i: int)
    requires
        is_first_occurrence(s, fence(), i),
        forall|j: int| 0 <= j <= i ==> !occurs_at(s, blank_line(), j),
    ensures
        next_delimiter(s) == Some(Delimiter::CodeSyntax(i)),
{
    lemma_first_occurrence_is(s, fence(), i);
    lemma_first_occurrence(s, blank_line());
}

/// A first blank line with no fence up to its offset is the next delimiter.
pub proof fn lemma_next_delimiter_is_blank_line(s: Seq<u8>, i: int)
    requires
        is_first_occurrence(s, blank_line(), i),
        forall|j: int| 0 <= j <= i ==> !occurs_at(s, fence(), j),
    ensures
        next_delimiter(s) == Some(Delimiter::NewParagraph(i)),
{
    lemma_first_occurrence_is(s, blank_line(), i);
    lemma_first_occurrence(s, fence());
}

/// Where both delimiters are pending in plain text, the one at the smaller
/// byte offset ends the block and decides the rule that follows: a fence
/// switches to code, a blank line stays with plain text.
pub proof fn lemma_tie_break(v: StreamView, f: int, b: int)
    requires
        v.mode == MarkdownContext::Normal,
        is_first_occurrence(v.pending(), fence(), f),
        is_first_occurrence(v.pending(), blank_line(), b),
    ensures
        f != b,
        f < b ==> v.step() == Some(
            Step {
                content: ContentView::Normal(text_of(v.pending().subrange(0, f))),
                next: v.advanced(f + 3, MarkdownContext::Code),
            },
        ),
        b < f ==> v.step() == Some(
            Step {
                content: ContentView::Normal(text_of(v.pending().subrange(0, b))),
                next: v.advanced(b + 2, MarkdownContext::Normal),
            },
        ),
{
    lemma_delimiters_differ(v.pending());
    lemma_first_occurrence_is(v.pending(), fence(), f);
    lemma_first_occurrence_is(v.pending(), blank_line(), b);
}

/// A step that can be taken is not changed by text that arrives later: with
/// `chunk` appended first, the same block is cut off and the cursor and the
/// rule end up the same.
pub proof fn lemma_step_stable(v: StreamView, chunk: Seq<char>)
    requires
        v.step() is Some,
    ensures
        v.appended(chunk).step() == Some(
            Step { content: v.step()->0.content, next: v.step()->0.next.appended(chunk) },
        ),
{
    lemma_step_advances(v);
    lemma_bytes_of_concat(v.text, chunk);
    let p = v.pending();
    let more = bytes_of(chunk);
    let w = v.appended(chunk);
    assert(w.pending() =~= p + more);
    match v.mode {
        MarkdownContext::Normal => {
            lemma_next_delimiter(p);
            match next_delimiter(p) {
                None => {},
                Some(Delimiter::NewParagraph(i)) => {
                    lemma_first_occurrence_append(p, more, blank_line(), i);
                    assert forall|j: int| 0 <= j <= i implies !occurs_at(p + more, fence(), j) by {
                        lemma_occurs_at_append(p, more, fence(), j);
                    }
                    lemma_next_delimiter_is_blank_line(p + more, i);
                    assert((p + more).subrange(0, i) =~= p.subrange(0, i));
                },
                Some(Delimiter::CodeSyntax(i)) => {
                    lemma_first_occurrence_append(p, more, fence(), i);
                    assert forall|j: int| 0 <= j <= i implies !occurs_at(
                        p + more,
                        blank_line(),
                        j,
                    ) by {
                        lemma_occurs_at_append(p, more, blank_line(), j);
                    }
                    lemma_next_delimiter_is_fence(p + more, i);
                    assert((p + more).subrange(0, i) =~= p.subrange(0, i));
                },
            }
        },
        MarkdownContext::Code => {
            lemma_first_occurrence(p, fence());
            let i = first_occurrence(p, fence())->0;
            lemma_first_occurrence_append(p, more, fence(), i);
            lemma_first_occurrence_is(p + more, fence(), i);
            assert((p + more).subrange(0, i) =~= p.subrange(0, i));
        },
    }
}

/// The incremental segmenter of one reply.
pub struct MarkdownIncremental {
    context: MarkdownContext,
    buf: String,
    pos: usize,
}

impl View for MarkdownIncremental {
    type V = StreamView;

    closed spec fn view(&self) -> StreamView {
        StreamView { text: self.buf@, cursor: self.pos as int, mode: self.context }
    }
}

impl Clone for MarkdownIncremental {
    fn clone(&self) -> (r: Self)
        ensures
            r@ == self@,
    {
        proof {
            use_type_invariant(self);
        }
        MarkdownIncremental { context: self.context, buf: self.buf.clone(), pos: self.pos }
    }
}

impl MarkdownIncremental {
    #[verifier::type_invariant]
    spec fn inv(self) -> bool {
        self@.wf()
    }

    /// A segmenter that has received nothing.
    pub fn new() -> (r: Self)
        ensures
            r@ == StreamView::empty(),
            r@.wf(),
    {
        let buf = String::new();
        proof {
            lemma_text_of_bytes_of(buf@);
            is_char_boundary_start_end_of_seq(bytes_of(buf@));
        }
        Self { context: MarkdownContext::Normal, buf, pos: 0 }
    }

    /// Appends `s` to the buffer. Nothing is cut off: the cursor and the rule
    /// in force stay as they are. An empty `s` changes nothing.
    pub fn add_content(&mut self, s: &str)
        ensures
            final(self)@ == old(self)@.appended(s@),
            final(self)@.wf(),
            s@.len() == 0 ==> final(self)@ == old(self)@,
    {
        // The buffer grows outside of `self`, which holds a segmenter with its
        // cursor inside its buffer at every moment.
        let mut taken = MarkdownIncremental::new();
        core::mem::swap(self, &mut taken);
        proof {
            use_type_invariant(&taken);
            lemma_text_of_bytes_of(taken.buf@);
            lemma_text_of_bytes_of(s@);
            lemma_bytes_of_concat(taken.buf@, s@);
            lemma_boundary_append(bytes_of(taken.buf@), bytes_of(s@), taken.pos as int);
        }
        let MarkdownIncremental { context, buf, pos } = taken;
        let mut buf = buf;
        let ghost text = buf@;
        buf.append(s);
        assert(s@.len() == 0 ==> text + s@ =~= text);
        *self = MarkdownIncremental { context, buf, pos };
    }

    /// Everything received so far.
    pub fn buffer(&self) -> (r: &str)
        ensures
            r@ == self@.text,
            self@.wf(),
    {
        proof {
            use_type_invariant(self);
        }
        self.buf.as_str()
    }

    /// The text behind the cursor: received, but not yet part of a block.
    pub fn unparsed(&self) -> (r: &str)
        ensures
            r@ == self@.tail(),
            self@.wf(),
    {
        proof {
            use_type_invariant(self);
            lemma_text_of_bytes_of(self.buf@);
        }
        let (_, rest) = self.buf.as_str().split_at(self.pos);
        proof {
            lemma_text_of_bytes_of(rest@);
            assert(rest.spec_bytes() =~= self@.pending());
        }
        rest
    }

    /// Cuts the next finished block off the pending bytes, if there is one:
    /// at most one block per call. `None` means that the closing delimiter
    /// has not arrived; the state is then unchanged.
    pub fn process_content(&mut self) -> (r: Option<Content>)
        ensures
            match old(self)@.step() {
                None => r is None && final(self)@ == old(self)@,
                Some(step) => r is Some && r->0@ == step.content && final(self)@ == step.next,
            },
            final(self)@.wf(),
    {
        proof {
            use_type_invariant(&*self);
            lemma_text_of_bytes_of(self.buf@);
        }
        let whole = self.buf.as_str();
        let total: usize = whole.as_bytes().len();
        let (_, remaining) = whole.split_at(self.pos);
        assert(remaining.spec_bytes() =~= self@.pending());
        assert(total == self@.bytes().len());
        match self.context {
            MarkdownContext::Normal => match normal_next_chunk(remaining) {
                None => None,
                Some(ContentFound::NewParagraph(idx)) => {
                    let text = head_text(remaining, idx, Ghost(blank_line()));
                    proof {
                        lemma_boundary_after_delimiter(self@, idx as int, blank_line());
                    }
                    self.pos = self.pos + idx + 2;
                    Some(Content::Normal(text))
                },
                Some(ContentFound::CodeSyntax(idx)) => {
                    let text = head_text(remaining, idx, Ghost(fence()));
                    proof {
                        lemma_boundary_after_delimiter(self@, idx as int, fence());
                    }
                    self.pos = self.pos + idx + 3;
                    self.context = MarkdownContext::Code;
                    Some(Content::Normal(text))
                },
            },
            MarkdownContext::Code => {
                let fence_pattern: [u8; 3] = [0x60u8, 0x60u8, 0x60u8];
                assert(fence_pattern@ =~= fence());
                match find_bytes(remaining.as_bytes(), fence_pattern.as_slice()) {
                    None => None,
                    Some(idx) => {
                        proof {
                            lemma_first_occurrence(remaining.spec_bytes(), fence());
                        }
                        let text = head_text(remaining, idx, Ghost(fence()));
                        proof {
                            lemma_boundary_after_delimiter(self@, idx as int, fence());
                        }
                        self.pos = self.pos + idx + 3;
                        self.context = MarkdownContext::Normal;
                        Some(Content::Code(text))
                    },
                }
            },
        }
    }
}

/// A delimiter made of one-byte characters.
pub open spec fn is_ascii_delimiter(pat: Seq<u8>) -> bool {
    &&& pat.len() > 0
    &&& forall|k: int| 0 <= k < pat.len() ==> pat[k] <= 0x7f
}

/// The text of `s` in front of a delimiter that starts at byte `idx`.
fn head_text(s: &str, idx: usize, Ghost(pat): Ghost<Seq<u8>>) -> (r: String)
    requires
        is_ascii_delimiter(pat),
        occurs_at(s.spec_bytes(), pat, idx as int),
    ensures
        r@ == text_of(s.spec_bytes().subrange(0, idx as int)),
{
    proof {
        lemma_text_of_bytes_of(s@);
        assert(s.spec_bytes().subrange(idx as int, idx + pat.len())[0] == s.spec_bytes()[idx as int]);
        lemma_boundary_at_ascii(s.spec_bytes(), idx as int);
    }
    let (head, _) = s.split_at(idx);
    proof {
        lemma_text_of_bytes_of(head@);
    }
    head.to_owned()
}

/// Where a delimiter of one-byte characters occurs in the pending bytes, the
/// cursor can move behind it and still lie between two characters.
proof fn lemma_boundary_after_delimiter(v: StreamView, idx: int, pat: Seq<u8>)
    requires
        v.wf(),
        is_ascii_delimiter(pat),
        occurs_at(v.pending(), pat, idx),
    ensures
        v.cursor + idx + pat.len() <= v.bytes().len(),
        is_char_boundary(v.bytes(), v.cursor + idx + pat.len()),
{
    let bytes = v.bytes();
    let p = v.pending();
    let start = v.cursor + idx;
    let n = pat.len() as int;
    lemma_text_of_bytes_of(v.text);
    assert forall|k: int| start <= k < start + n implies bytes[k] <= 0x7f by {
        assert(p.subrange(idx, idx + n)[k - start] == p[k - v.cursor]);
        assert(p[k - v.cursor] == bytes[k]);
    }
    lemma_boundary_at_ascii(bytes, start);
    lemma_boundary_after_ascii_run(bytes, start, n);
}

} // verus!
