//! The reply of the model as it is shown: the blocks finished so far, and
//! behind them the text that is still pending.

use vstd::prelude::*;
use vstd::string::*;
use vstd::utf8::*;
use crate::markdown::{
    blank_line, fence, lemma_step_advances, lemma_step_stable, Content, ContentView,
    MarkdownIncremental, StreamView,
};
use crate::scan::{find_bytes, first_occurrence, lemma_first_occurrence, occurs_at};
use crate::text::{bytes_of, lemma_boundary_after_ascii, lemma_boundary_at_ascii, lemma_text_of_bytes_of, text_of};

verus! {

/// The line feed that ends the language hint of a block of code.
pub open spec fn line_feed() -> Seq<u8> {
    seq![0x0au8]
}

/// How a finished block is shown: as prose, or as code in the language that
/// the hint names.
#[derive(PartialEq, Eq, Debug)]
pub enum OutputMode {
    Text,
    Code(String),
}

/// The way a block is shown, as a mathematical value.
pub enum OutputModeView {
    Text,
    Code(Seq<char>),
}

impl View for OutputMode {
    type V = OutputModeView;

    open spec fn view(&self) -> OutputModeView {
        match self {
            OutputMode::Text => OutputModeView::Text,
            OutputMode::Code(hint) => OutputModeView::Code(hint@),
        }
    }
}

/// A finished block of the reply.
#[derive(PartialEq, Eq, Debug)]
pub struct Chunk {
    pub raw_content: String,
    pub output_mode: OutputMode,
}

/// A finished block as a mathematical value.
pub struct ChunkView {
    pub raw_content: Seq<char>,
    pub output_mode: OutputModeView,
}

impl View for Chunk {
    type V = ChunkView;

    open spec fn view(&self) -> ChunkView {
        ChunkView { raw_content: self.raw_content@, output_mode: self.output_mode@ }
    }
}

impl Clone for OutputMode {
    fn clone(&self) -> (r: Self)
        ensures
            r == *self,
    {
        match self {
            OutputMode::Text => OutputMode::Text,
            OutputMode::Code(hint) => OutputMode::Code(hint.clone()),
        }
    }
}

impl Clone for Chunk {
    fn clone(&self) -> (r: Self)
        ensures
            r == *self,
    {
        Chunk { raw_content: self.raw_content.clone(), output_mode: self.output_mode.clone() }
    }
}

/// The block of code made of the text between two fences. Up to its first
/// line feed the text is the language hint, behind it the code; without a line
/// feed the hint is empty and all of the text is code.
pub open spec fn code_chunk(text: Seq<char>) -> ChunkView {
    let bytes = bytes_of(text);
    match first_occurrence(bytes, line_feed()) {
        Some(i) => ChunkView {
            raw_content: text_of(bytes.subrange(i + 1, bytes.len() as int)),
            output_mode: OutputModeView::Code(text_of(bytes.subrange(0, i))),
        },
        None => ChunkView { raw_content: text, output_mode: OutputModeView::Code(Seq::empty()) },
    }
}

/// The block of prose made of `text`.
pub open spec fn text_chunk(text: Seq<char>) -> ChunkView {
    ChunkView { raw_content: text, output_mode: OutputModeView::Text }
}

/// The block that is shown for what the segmenter handed out.
pub open spec fn chunk_of(content: ContentView) -> ChunkView {
    match content {
        ContentView::Normal(text) => text_chunk(text),
        ContentView::Code(text) => code_chunk(text),
    }
}

impl Chunk {
    /// A block of prose.
    pub fn new(raw_content: String) -> (r: Self)
        ensures
            r@ == text_chunk(raw_content@),
    {
        Self { raw_content, output_mode: OutputMode::Text }
    }

    /// A block of code, from the text between its fences.
    pub fn new_code(raw_content: String) -> (r: Self)
        ensures
            r@ == code_chunk(raw_content@),
    {
        let whole = raw_content.as_str();
        let feed: [u8; 1] = [0x0au8];
        assert(feed@ =~= line_feed());
        match find_bytes(whole.as_bytes(), feed.as_slice()) {
            Some(idx) => {
                proof {
                    let bytes = whole.spec_bytes();
                    lemma_text_of_bytes_of(whole@);
                    lemma_first_occurrence(bytes, line_feed());
                    assert(bytes.subrange(idx as int, idx + 1)[0] == bytes[idx as int]);
                    lemma_boundary_at_ascii(bytes, idx as int);
                }
                let (code_type, rest) = whole.split_at(idx);
                proof {
                    lemma_text_of_bytes_of(rest@);
                    lemma_text_of_bytes_of(code_type@);
                    is_char_boundary_start_end_of_seq(rest.spec_bytes());
                    lemma_boundary_after_ascii(rest.spec_bytes(), 0);
                }
                let (_, content) = rest.split_at(1);
                proof {
                    lemma_text_of_bytes_of(content@);
                    assert(content.spec_bytes() =~= whole.spec_bytes().subrange(
                        idx + 1,
                        whole.spec_bytes().len() as int,
                    ));
                }
                Self {
                    raw_content: content.to_owned(),
                    output_mode: OutputMode::Code(code_type.to_owned()),
                }
            },
            None => Self { raw_content, output_mode: OutputMode::Code(String::new()) },
        }
    }
}

/// The reply as a mathematical value: the state of its segmenter, and the
/// blocks finished so far, in the order of the stream.
pub struct OutputView {
    pub stream: StreamView,
    pub chunks: Seq<ChunkView>,
}

impl OutputView {
    /// A reply of which nothing has been received.
    pub open spec fn empty() -> OutputView {
        OutputView { stream: StreamView::empty(), chunks: Seq::empty() }
    }

    /// All the text received, delimiters included.
    pub open spec fn raw(self) -> Seq<char> {
        self.stream.text
    }

    /// The text received that is not yet part of a finished block.
    pub open spec fn tail(self) -> Seq<char> {
        self.stream.tail()
    }

    /// The reply with `chunk` received and nothing cut off yet.
    pub open spec fn appended(self, chunk: Seq<char>) -> OutputView {
        OutputView { stream: self.stream.appended(chunk), chunks: self.chunks }
    }

    /// The reply after one step of the segmenter, its block added at the end.
    pub open spec fn stepped(self) -> OutputView
        recommends
            self.stream.step() is Some,
    {
        let step = self.stream.step()->0;
        OutputView { stream: step.next, chunks: self.chunks.push(chunk_of(step.content)) }
    }

    /// The reply after every block has been cut off whose closing delimiter
    /// has arrived.
    pub open spec fn drained(self) -> OutputView
        decreases self.stream.bytes().len() - self.stream.cursor,
    {
        if self.stream.step() is Some {
            proof {
                lemma_step_advances(self.stream);
            }
            self.stepped().drained()
        } else {
            self
        }
    }

    /// The reply after `chunk` has been received and taken in.
    pub open spec fn fed(self, chunk: Seq<char>) -> OutputView {
        self.appended(chunk).drained()
    }

    /// The reply after the chunks have been received and taken in one by one.
    pub open spec fn fed_all(self, chunks: Seq<Seq<char>>) -> OutputView
        decreases chunks.len(),
    {
        if chunks.len() == 0 {
            self
        } else {
            self.fed(chunks.first()).fed_all(chunks.drop_first())
        }
    }
}

/// Draining changes neither the text received nor what is left to do: no
/// further step can be taken, and draining again changes nothing.
pub proof fn lemma_drained(v: OutputView)
    ensures
        v.drained().raw() == v.raw(),
        v.drained().stream.step() is None,
        v.drained().drained() == v.drained(),
    decreases v.stream.bytes().len() - v.stream.cursor,
{
    if v.stream.step() is Some {
        lemma_step_advances(v.stream);
        lemma_drained(v.stepped());
    }
}

/// Blocks may be cut off before more text arrives or after it: the result is
/// the same.
pub proof fn lemma_drained_appended(v: OutputView, chunk: Seq<char>)
    ensures
        v.drained().appended(chunk).drained() == v.appended(chunk).drained(),
    decreases v.stream.bytes().len() - v.stream.cursor,
{
    if v.stream.step() is Some {
        lemma_step_advances(v.stream);
        lemma_step_stable(v.stream, chunk);
        lemma_drained_appended(v.stepped(), chunk);
        assert(v.appended(chunk).stepped() == v.stepped().appended(chunk));
    }
}

/// Taking in `a` and then `b` gives what taking in `a + b` at once gives.
pub proof fn lemma_fed_twice(v: OutputView, a: Seq<char>, b: Seq<char>)
    ensures
        v.fed(a).fed(b) == v.fed(a + b),
{
    lemma_drained_appended(v.appended(a), b);
    assert(v.appended(a).appended(b).stream.text =~= v.appended(a + b).stream.text);
    assert(v.appended(a).appended(b) == v.appended(a + b));
}

/// An empty chunk changes nothing in a reply with nothing left to cut off,
/// which is what every reply is when `ChatOutput::add_content` returns.
pub proof fn lemma_fed_nothing(v: OutputView)
    requires
        v.stream.step() is None,
    ensures
        v.fed(Seq::empty()) == v,
{
    assert(v.stream.text + Seq::<char>::empty() =~= v.stream.text);
    assert(v.appended(Seq::empty()) == v);
}

/// A text that holds neither delimiter gives no block: taken in by a fresh
/// reply, all of it stays pending.
pub proof fn lemma_no_delimiter_no_block(text: Seq<char>)
    requires
        forall|j: int| !occurs_at(bytes_of(text), fence(), j),
        forall|j: int| !occurs_at(bytes_of(text), blank_line(), j),
    ensures
        OutputView::empty().fed(text).chunks == Seq::<ChunkView>::empty(),
        OutputView::empty().fed(text).tail() == text,
        OutputView::empty().fed(text).raw() == text,
{
    let taken = OutputView::empty().appended(text);
    assert(Seq::<char>::empty() + text =~= text);
    assert(taken.stream.pending() =~= bytes_of(text));
    lemma_first_occurrence(bytes_of(text), fence());
    lemma_first_occurrence(bytes_of(text), blank_line());
    assert(taken.stream.step() is None);
    lemma_text_of_bytes_of(text);
}

/// Taking in text keeps all of it: the raw text grows by exactly the chunk.
pub proof fn lemma_fed_raw(v: OutputView, chunk: Seq<char>)
    ensures
        v.fed(chunk).raw() == v.raw() + chunk,
{
    lemma_drained(v.appended(chunk));
}

/// Chunk-boundary independence. However a text is cut into chunks, taking the
/// chunks in one at a time gives the same finished blocks, the same pending
/// tail and the same rule in force as taking the whole text in at once.
pub proof fn lemma_chunking_independent(chunks: Seq<Seq<char>>)
    ensures
        OutputView::empty().fed_all(chunks) == OutputView::empty().fed(chunks.flatten()),
{
    let start = OutputView::empty();
    lemma_first_occurrence(start.stream.pending(), fence());
    lemma_first_occurrence(start.stream.pending(), blank_line());
    assert(start.stream.step() is None);
    lemma_fed_all(start, chunks);
}

/// From a reply with nothing left to cut off, taking the chunks in one at a
/// time gives what taking their concatenation in at once gives.
pub proof fn lemma_fed_all(v: OutputView, chunks: Seq<Seq<char>>)
    requires
        v.stream.step() is None,
    ensures
        v.fed_all(chunks) == v.fed(chunks.flatten()),
    decreases chunks.len(),
{
    if chunks.len() == 0 {
        assert(chunks.flatten() =~= Seq::<char>::empty());
        assert(v.stream.text + Seq::<char>::empty() =~= v.stream.text);
        assert(v.appended(Seq::empty()) == v);
    } else {
        let head = chunks.first();
        let rest = chunks.drop_first();
        lemma_drained(v.appended(head));
        lemma_fed_all(v.fed(head), rest);
        lemma_fed_twice(v, head, rest.flatten());
        assert(chunks.flatten() =~= head + rest.flatten());
    }
}

/// Losslessness. After any sequence of chunks the raw text is the exact
/// concatenation of the chunks, whatever was cut off on the way.
pub proof fn lemma_raw_is_concatenation(chunks: Seq<Seq<char>>)
    ensures
        OutputView::empty().fed_all(chunks).raw() == chunks.flatten(),
{
    lemma_chunking_independent(chunks);
    lemma_fed_raw(OutputView::empty(), chunks.flatten());
    assert(Seq::<char>::empty() + chunks.flatten() =~= chunks.flatten());
}

/// The reply of the model to one prompt.
pub struct ChatOutput {
    stream: MarkdownIncremental,
    output: Vec<Chunk>,
}

impl View for ChatOutput {
    type V = OutputView;

    closed spec fn view(&self) -> OutputView {
        OutputView { stream: self.stream@, chunks: self.output@.map_values(|c: Chunk| c@) }
    }
}

impl Clone for ChatOutput {
    /// A copy that holds the same text, cut into the same blocks.
    fn clone(&self) -> (r: Self)
        ensures
            r@ == self@,
    {
        let stream = self.stream.clone();
        let output = self.output.clone();
        proof {
            use_type_invariant(self);
            assert(output@ =~= self.output@);
        }
        Self { stream, output }
    }
}

impl ChatOutput {
    /// Nothing is left to cut off: every block whose closing delimiter has
    /// arrived is among the finished blocks.
    #[verifier::type_invariant]
    spec fn inv(self) -> bool {
        self@.stream.step() is None
    }

    /// A reply of which nothing has been received.
    pub fn new() -> (r: Self)
        ensures
            r@ == OutputView::empty(),
            r@.stream.wf(),
            r@.stream.step() is None,
    {
        let stream = MarkdownIncremental::new();
        let output: Vec<Chunk> = Vec::new();
        proof {
            assert(output@.map_values(|c: Chunk| c@) =~= Seq::empty());
            lemma_first_occurrence(stream@.pending(), fence());
            lemma_first_occurrence(stream@.pending(), blank_line());
        }
        Self { stream, output }
    }

    /// All the text received so far, delimiters and pending tail included.
    pub fn raw(&self) -> (r: String)
        ensures
            r@ == self@.raw(),
            self@.stream.wf(),
            self@.stream.step() is None,
    {
        proof {
            use_type_invariant(self);
        }
        self.stream.buffer().to_owned()
    }

    /// The text received that is not yet part of a finished block.
    pub fn unparsed(&self) -> (r: &str)
        ensures
            r@ == self@.tail(),
            self@.stream.wf(),
            self@.stream.step() is None,
    {
        proof {
            use_type_invariant(self);
        }
        self.stream.unparsed()
    }

    /// The blocks finished so far, in the order of the stream.
    pub fn chunks(&self) -> (r: &Vec<Chunk>)
        ensures
            r@.map_values(|c: Chunk| c@) == self@.chunks,
            self@.stream.step() is None,
    {
        proof {
            use_type_invariant(self);
        }
        &self.output
    }

    /// Receives `message`: appends it to the text and cuts off every block
    /// whose closing delimiter has now arrived. An empty message changes
    /// nothing.
    pub fn add_content(&mut self, message: &str)
        ensures
            final(self)@ == old(self)@.fed(message@),
            final(self)@.raw() == old(self)@.raw() + message@,
            final(self)@.stream.wf(),
            final(self)@.stream.step() is None,
            message@.len() == 0 ==> final(self)@ == old(self)@,
    {
        // The reply is taken in outside of `self`, which holds a reply with
        // nothing left to cut off at every moment.
        let mut taken = ChatOutput::new();
        core::mem::swap(self, &mut taken);
        let ghost before = taken@;
        proof {
            use_type_invariant(&taken);
            lemma_drained(before.appended(message@));
            if message@.len() == 0 {
                assert(message@ =~= Seq::<char>::empty());
                lemma_fed_nothing(before);
            }
        }
        let ChatOutput { stream, output } = taken;
        let mut stream = stream;
        let mut output = output;
        stream.add_content(message);
        loop
            invariant
                (OutputView { stream: stream@, chunks: output@.map_values(|c: Chunk| c@) }).drained()
                    == before.fed(message@),
            ensures
                (OutputView { stream: stream@, chunks: output@.map_values(|c: Chunk| c@) })
                    == before.fed(message@),
                stream@.wf(),
            decreases stream@.bytes().len() - stream@.cursor,
        {
            proof {
                if stream@.step() is Some {
                    lemma_step_advances(stream@);
                }
            }
            let ghost chunks = output@.map_values(|c: Chunk| c@);
            let ghost step = stream@.step();
            match stream.process_content() {
                None => {
                    break ;
                },
                Some(Content::Code(s)) => {
                    output.push(Chunk::new_code(s));
                },
                Some(Content::Normal(s)) => {
                    output.push(Chunk::new(s));
                },
            }
            assert(output@.map_values(|c: Chunk| c@) =~= chunks.push(chunk_of(step->0.content)));
        }
        *self = ChatOutput { stream, output };
    }
}

} // verus!
