use chat_compat::splitter::ChatReasoningFormat;
use chat_compat::splitter::ContentSegment;
use chat_compat::splitter::ThinkTagStreamSplitter;

fn assistant_concat(segs: &[ContentSegment]) -> String {
    let mut out = String::new();
    for s in segs {
        if let ContentSegment::Assistant(t) = s {
            out.push_str(t);
        }
    }
    out
}

fn reasoning_concat(segs: &[ContentSegment]) -> String {
    let mut out = String::new();
    for s in segs {
        if let ContentSegment::Reasoning(t) = s {
            out.push_str(t);
        }
    }
    out
}

#[test]
fn splits_minimax_think_blocks() {
    let mut splitter = ThinkTagStreamSplitter::new(ChatReasoningFormat::MinimaxThinkTags);
    let segments = splitter.split_chunk("a<think>b</think>c");
    assert_eq!(
        segments,
        vec![
            ContentSegment::Assistant("a".to_string()),
            ContentSegment::Reasoning("b".to_string()),
            ContentSegment::Assistant("c".to_string())
        ]
    );
}

#[test]
fn handles_split_tags_across_chunks() {
    let mut splitter = ThinkTagStreamSplitter::new(ChatReasoningFormat::MinimaxThinkTags);
    let mut segments = splitter.split_chunk("<th");
    assert_eq!(segments, vec![]);

    segments.extend(splitter.split_chunk("ink>abc</thi"));
    segments.extend(splitter.split_chunk("nk>done"));
    assert_eq!(
        segments,
        vec![
            ContentSegment::Reasoning("abc".to_string()),
            ContentSegment::Assistant("done".to_string())
        ]
    );
}

#[test]
fn standard_mode_passthrough() {
    let mut splitter = ThinkTagStreamSplitter::new(ChatReasoningFormat::Standard);
    assert_eq!(
        splitter.split_chunk("<think>x</think>"),
        vec![ContentSegment::Assistant("<think>x</think>".to_string())]
    );
}

#[test]
fn every_chunk_boundary_reconstructs_wrapped_text() {
    let input = "head<think>inner reasoning</think>tail text";
    for cut in 1..input.len() {
        let mut splitter = ThinkTagStreamSplitter::new(ChatReasoningFormat::MinimaxThinkTags);
        let mut segs = splitter.split_chunk(&input[..cut]);
        segs.extend(splitter.split_chunk(&input[cut..]));
        segs.extend(splitter.flush_remaining());
        assert_eq!(assistant_concat(&segs), "headtail text", "cut at {cut}");
        assert_eq!(reasoning_concat(&segs), "inner reasoning", "cut at {cut}");
    }
}

#[test]
fn one_byte_chunks_reconstruct_wrapped_text() {
    let input = "a<think>b</think>c<think>d</think>e";
    let mut splitter = ThinkTagStreamSplitter::new(ChatReasoningFormat::MinimaxThinkTags);
    let mut segs = Vec::new();
    for i in 0..input.len() {
        segs.extend(splitter.split_chunk(&input[i..i + 1]));
    }
    segs.extend(splitter.flush_remaining());
    assert_eq!(assistant_concat(&segs), "ace");
    assert_eq!(reasoning_concat(&segs), "bd");
}

#[test]
fn flush_remaining_is_idempotent() {
    let mut splitter = ThinkTagStreamSplitter::new(ChatReasoningFormat::MinimaxThinkTags);
    let _ = splitter.split_chunk("<think>pending</thi");
    let first = splitter.flush_remaining();
    assert!(!first.is_empty());
    let second = splitter.flush_remaining();
    assert!(second.is_empty());
}

#[test]
fn unclosed_block_flushes_as_reasoning() {
    let mut splitter = ThinkTagStreamSplitter::new(ChatReasoningFormat::MinimaxThinkTags);
    let segs = splitter.split_chunk("<think>still open");
    let mut all = segs;
    all.extend(splitter.flush_remaining());
    assert_eq!(reasoning_concat(&all), "still open");
    assert_eq!(assistant_concat(&all), "");
}
