use thinkmate::markdown::{
    normal_next_chunk, Content, ContentFound, MarkdownContext, MarkdownIncremental,
};
use thinkmate::output::{ChatOutput, Chunk, OutputMode};
use thinkmate::scan::find_bytes;

fn drain(stream: &mut MarkdownIncremental) -> Vec<Content> {
    let mut out = Vec::new();
    while let Some(content) = stream.process_content() {
        out.push(content);
    }
    out
}

fn feed(chunks: &[&str]) -> ChatOutput {
    let mut out = ChatOutput::new();
    for chunk in chunks {
        out.add_content(chunk);
    }
    out
}

fn text(s: &str) -> Chunk {
    Chunk { raw_content: s.to_string(), output_mode: OutputMode::Text }
}

fn code(body: &str, hint: &str) -> Chunk {
    Chunk { raw_content: body.to_string(), output_mode: OutputMode::Code(hint.to_string()) }
}

#[test]
fn scenario_hello_world_python() {
    let out = feed(&["Hello ", "world\n\n```py", "thon\nprint(1)\n```", " done"]);
    // The fence follows the blank line at once, so the plain block between
    // the two delimiters is empty.
    assert_eq!(out.chunks(), &vec![text("Hello world"), text(""), code("print(1)\n", "python")]);
    let shown: Vec<Chunk> =
        out.chunks().iter().filter(|c| !c.raw_content.is_empty()).cloned().collect();
    assert_eq!(shown, vec![text("Hello world"), code("print(1)\n", "python")]);
    assert_eq!(out.unparsed(), " done");
    assert_eq!(out.raw(), "Hello world\n\n```python\nprint(1)\n``` done");
}

#[test]
fn scenario_no_delimiters() {
    let out = feed(&["no delimiters at all"]);
    assert!(out.chunks().is_empty());
    assert_eq!(out.unparsed(), "no delimiters at all");
    assert_eq!(out.raw(), "no delimiters at all");
}

#[test]
fn new_output_is_empty() {
    let out = ChatOutput::new();
    assert!(out.chunks().is_empty());
    assert_eq!(out.unparsed(), "");
    assert_eq!(out.raw(), "");
}

#[test]
fn segmenter_steps_one_block_per_call() {
    let mut stream = MarkdownIncremental::new();
    stream.add_content("a\n\nb```c```d");
    assert_eq!(stream.process_content(), Some(Content::Normal("a".to_string())));
    assert_eq!(stream.unparsed(), "b```c```d");
    assert_eq!(stream.process_content(), Some(Content::Normal("b".to_string())));
    assert_eq!(stream.unparsed(), "c```d");
    assert_eq!(stream.process_content(), Some(Content::Code("c".to_string())));
    assert_eq!(stream.process_content(), None);
    assert_eq!(stream.process_content(), None);
    assert_eq!(stream.unparsed(), "d");
    assert_eq!(stream.buffer(), "a\n\nb```c```d");
}

#[test]
fn add_content_alone_cuts_nothing() {
    let mut stream = MarkdownIncremental::new();
    stream.add_content("a\n\nb");
    assert_eq!(stream.unparsed(), "a\n\nb");
    assert_eq!(stream.buffer(), "a\n\nb");
}

#[test]
fn tie_break_fence_first() {
    assert_eq!(normal_next_chunk("ab```cd\n\nef"), Some(ContentFound::CodeSyntax(2)));
    let out = feed(&["ab```cd\n\nef"]);
    assert_eq!(out.chunks(), &vec![text("ab")]);
    // The blank line lies inside the code and ends nothing.
    assert_eq!(out.unparsed(), "cd\n\nef");
    let out = feed(&["ab```cd\n\nef```gh"]);
    assert_eq!(out.chunks(), &vec![text("ab"), code("\nef", "cd")]);
    assert_eq!(out.unparsed(), "gh");
}

#[test]
fn tie_break_blank_line_first() {
    assert_eq!(normal_next_chunk("ab\n\ncd```ef"), Some(ContentFound::NewParagraph(2)));
    let out = feed(&["ab\n\ncd```ef"]);
    assert_eq!(out.chunks(), &vec![text("ab"), text("cd")]);
    assert_eq!(out.unparsed(), "ef");
}

#[test]
fn next_chunk_offsets() {
    assert_eq!(normal_next_chunk("```"), Some(ContentFound::CodeSyntax(0)));
    assert_eq!(normal_next_chunk("\n\n"), Some(ContentFound::NewParagraph(0)));
    assert_eq!(normal_next_chunk("\n```\n\n"), Some(ContentFound::CodeSyntax(1)));
    assert_eq!(normal_next_chunk("\n\n```"), Some(ContentFound::NewParagraph(0)));
    assert_eq!(normal_next_chunk("ab``\n"), None);
    assert_eq!(normal_next_chunk("``\n`\n"), None);
    assert_eq!(normal_next_chunk(""), None);
    // Offsets count bytes: the two characters in front take five bytes.
    assert_eq!(normal_next_chunk("é日```"), Some(ContentFound::CodeSyntax(5)));
    assert_eq!(normal_next_chunk("é日\n\n"), Some(ContentFound::NewParagraph(5)));
}

#[test]
fn find_bytes_first_occurrence() {
    assert_eq!(find_bytes(b"abcabc", b"bc"), Some(1));
    assert_eq!(find_bytes(b"abcabc", b"abcabc"), Some(0));
    assert_eq!(find_bytes(b"abcabc", b"cb"), None);
    assert_eq!(find_bytes(b"ab", b"abc"), None);
    assert_eq!(find_bytes(b"aaa", b"aa"), Some(0));
    assert_eq!(find_bytes(b"", b"a"), None);
    assert_eq!(find_bytes(b"abc", b""), Some(0));
    assert_eq!(find_bytes(b"", b""), Some(0));
    assert_eq!(find_bytes(b"xxab", b"ab"), Some(2));
}

#[test]
fn four_backticks_close_at_the_first_three() {
    let out = feed(&["````x```"]);
    assert_eq!(out.chunks(), &vec![text(""), code("`x", "")]);
    assert_eq!(out.unparsed(), "");
}

#[test]
fn three_line_feeds_end_one_paragraph() {
    let out = feed(&["a\n\n\nb\n\n"]);
    assert_eq!(out.chunks(), &vec![text("a"), text("\nb")]);
    assert_eq!(out.unparsed(), "");
}

#[test]
fn unterminated_fence_stays_pending() {
    let out = feed(&["intro```rust\nfn main() {}\n"]);
    assert_eq!(out.chunks(), &vec![text("intro")]);
    assert_eq!(out.unparsed(), "rust\nfn main() {}\n");
    assert_eq!(out.raw(), "intro```rust\nfn main() {}\n");
}

#[test]
fn empty_chunk_changes_no_segmenter() {
    let mut stream = MarkdownIncremental::new();
    stream.add_content("");
    assert_eq!(stream.buffer(), "");
    assert_eq!(stream.process_content(), None);
    stream.add_content("a```b");
    assert_eq!(stream.process_content(), Some(Content::Normal("a".to_string())));
    stream.add_content("");
    assert_eq!(stream.buffer(), "a```b");
    assert_eq!(stream.unparsed(), "b");
    assert_eq!(stream.process_content(), None);
}

#[test]
fn zero_length_chunks_change_nothing() {
    let mut out = feed(&["a\n\nb"]);
    out.add_content("");
    assert_eq!(out.chunks(), &vec![text("a")]);
    assert_eq!(out.unparsed(), "b");
    assert_eq!(out.raw(), "a\n\nb");
    let out = feed(&["", "a", "", "\n", "", "\nb", ""]);
    assert_eq!(out.chunks(), &vec![text("a")]);
    assert_eq!(out.unparsed(), "b");
    assert_eq!(out.raw(), "a\n\nb");
}

#[test]
fn delimiter_split_across_chunks() {
    let whole = feed(&["x``` y ```z\n\nw"]);
    for parts in [
        vec!["x`", "`` y ```z\n\nw"],
        vec!["x``", "` y ```z\n\nw"],
        vec!["x```", " y ```z\n\nw"],
        vec!["x``` y `", "`", "`z\n", "\nw"],
        vec!["x", "`", "`", "`", " ", "y", " ", "`", "`", "`", "z", "\n", "\n", "w"],
    ] {
        let out = feed(&parts);
        assert_eq!(out.chunks(), whole.chunks());
        assert_eq!(out.unparsed(), whole.unparsed());
        assert_eq!(out.raw(), whole.raw());
    }
    assert_eq!(whole.chunks(), &vec![text("x"), code(" y ", ""), text("z")]);
    assert_eq!(whole.unparsed(), "w");
}

#[test]
fn chunking_is_independent_of_boundaries() {
    let s = "Intro é\n\n```py\nprint('日本')\n```\n\nmid ``not`` a fence\n\n```\nraw\n``` tail 🙂";
    let whole = feed(&[s]);
    let cuts: Vec<usize> = (0..=s.len()).filter(|i| s.is_char_boundary(*i)).collect();
    // Every cut into two chunks.
    for &c in &cuts {
        let out = feed(&[&s[..c], &s[c..]]);
        assert_eq!(out.chunks(), whole.chunks());
        assert_eq!(out.unparsed(), whole.unparsed());
        assert_eq!(out.raw(), s);
    }
    // One character per chunk.
    let mut out = ChatOutput::new();
    for w in cuts.windows(2) {
        out.add_content(&s[w[0]..w[1]]);
    }
    assert_eq!(out.chunks(), whole.chunks());
    assert_eq!(out.unparsed(), whole.unparsed());
    assert_eq!(out.raw(), s);
    assert_eq!(
        whole.chunks(),
        &vec![
            text("Intro é"),
            text(""),
            code("print('日本')\n", "py"),
            text(""),
            text("mid ``not`` a fence"),
            text(""),
            code("raw\n", ""),
        ]
    );
    assert_eq!(whole.unparsed(), " tail 🙂");
}

#[test]
fn raw_is_the_concatenation_of_the_chunks() {
    let parts = ["a\n", "\n```", "x", "```", "", "\n\n\n", "```never closed"];
    let mut out = ChatOutput::new();
    let mut all = String::new();
    for p in parts {
        out.add_content(p);
        all.push_str(p);
        assert_eq!(out.raw(), all);
    }
}

#[test]
fn multibyte_text_is_cut_between_characters() {
    let mut stream = MarkdownIncremental::new();
    stream.add_content("héllo wörld\n\n```日本\n語```🙂");
    assert_eq!(
        drain(&mut stream),
        vec![
            Content::Normal("héllo wörld".to_string()),
            Content::Normal("".to_string()),
            Content::Code("日本\n語".to_string()),
        ]
    );
    assert_eq!(stream.unparsed(), "🙂");
}

#[test]
fn code_hint_is_the_first_line() {
    assert_eq!(Chunk::new_code("python\nprint(1)\n".to_string()), code("print(1)\n", "python"));
    assert_eq!(Chunk::new_code("print(1)".to_string()), code("print(1)", ""));
    assert_eq!(Chunk::new_code("\nprint(1)".to_string()), code("print(1)", ""));
    assert_eq!(Chunk::new_code("rs\n".to_string()), code("", "rs"));
    assert_eq!(Chunk::new_code("".to_string()), code("", ""));
    assert_eq!(Chunk::new_code("a\nb\nc".to_string()), code("b\nc", "a"));
    assert_eq!(Chunk::new_code("日本\n語".to_string()), code("語", "日本"));
}

#[test]
fn plain_chunk_keeps_its_text() {
    assert_eq!(Chunk::new("some *prose*\nhere".to_string()), text("some *prose*\nhere"));
    assert_eq!(Chunk::new(String::new()), text(""));
}

#[test]
fn clones_hold_the_same() {
    let out = feed(&["a\n\n```x\ny```z"]);
    let copy = out.clone();
    assert_eq!(copy.chunks(), out.chunks());
    assert_eq!(copy.unparsed(), out.unparsed());
    assert_eq!(copy.raw(), out.raw());
    let mut stream = MarkdownIncremental::new();
    stream.add_content("a```b");
    assert_eq!(stream.process_content(), Some(Content::Normal("a".to_string())));
    let mut copy = stream.clone();
    copy.add_content("```");
    assert_eq!(copy.process_content(), Some(Content::Code("b".to_string())));
    assert_eq!(stream.process_content(), None);
    assert_eq!(MarkdownContext::Code.clone(), MarkdownContext::Code);
    assert_ne!(MarkdownContext::Code, MarkdownContext::Normal);
}
