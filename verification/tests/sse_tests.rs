use ghostprompt::sse::SseDecoder;

#[test]
fn single_event() {
    let mut d = SseDecoder::new();
    let out = d.push_text("data: {\"a\":1}\n\n");
    assert_eq!(out, vec!["{\"a\":1}".to_string()]);
    assert_eq!(d.finish(), Vec::<String>::new());
}

#[test]
fn incomplete_event_is_held() {
    let mut d = SseDecoder::new();
    assert_eq!(d.push_text("data: x\n"), Vec::<String>::new());
    assert_eq!(d.push_text("\n"), vec!["x".to_string()]);
}

#[test]
fn done_marker_is_skipped() {
    let mut d = SseDecoder::new();
    let out = d.push_text("data: a\n\ndata:  [DONE] \n\ndata: b\n\n");
    assert_eq!(out, vec!["a".to_string(), "b".to_string()]);
}

#[test]
fn other_fields_and_lines_are_ignored() {
    let mut d = SseDecoder::new();
    let out = d.push_text("event: delta\r\nid: 3\r\ndata: p1\r\ndata:p2\r\n: comment\n\n");
    assert_eq!(out, vec!["p1".to_string()]);
}

#[test]
fn several_events_in_one_chunk() {
    let mut d = SseDecoder::new();
    let out = d.push_text("data: 1\n\ndata: 2\ndata: 3\n\n\ndata: 4");
    assert_eq!(out, vec!["1".to_string(), "2".to_string(), "3".to_string()]);
    assert_eq!(d.finish(), vec!["4".to_string()]);
}

#[test]
fn chunk_boundaries_do_not_matter() {
    let whole = "data: {\"c\":\"he\"}\n\ndata: {\"c\":\"llo\"}\n\ndata: [DONE]\n\n";
    let mut one = SseDecoder::new();
    let all = one.push_text(whole);
    for cut in 0..whole.len() {
        if !whole.is_char_boundary(cut) {
            continue;
        }
        let mut two = SseDecoder::new();
        let mut got = two.push_text(&whole[..cut]);
        got.extend(two.push_text(&whole[cut..]));
        assert_eq!(got, all, "cut at {}", cut);
        assert_eq!(two.finish(), one.finish());
    }
    assert_eq!(all.len(), 2);
}

#[test]
fn finish_decodes_held_lines() {
    let mut d = SseDecoder::new();
    assert_eq!(d.push_text("data: tail\ndata: [DONE]"), Vec::<String>::new());
    assert_eq!(d.finish(), vec!["tail".to_string()]);
}

#[test]
fn byte_chunks_are_decoded() {
    let mut d = SseDecoder::new();
    let out = d.push_chunk("data: 你好\n\n".as_bytes());
    assert_eq!(out, vec!["你好".to_string()]);
}

#[test]
fn character_cut_between_chunks_is_kept_whole() {
    let mut d = SseDecoder::new();
    let bytes = "data: 你".as_bytes();
    assert!(d.push_chunk(&bytes[..7]).is_empty());
    let out = d.push_chunk(&[bytes[7], bytes[8], b'\n', b'\n']);
    assert_eq!(out, vec!["你".to_string()]);
}

#[test]
fn byte_chunk_boundaries_do_not_matter() {
    let body = "data: {\"c\":\"你好\"}\n\ndata: {\"c\":\"世界🙂\"}\n\ndata: [DONE]\n\ndata: tail".as_bytes();
    let mut one = SseDecoder::new();
    let mut all = one.push_chunk(body);
    all.extend(one.finish());
    assert_eq!(all.len(), 3);
    for cut in 0..=body.len() {
        for cut2 in cut..=body.len() {
            let mut d = SseDecoder::new();
            let mut got = d.push_chunk(&body[..cut]);
            got.extend(d.push_chunk(&body[cut..cut2]));
            got.extend(d.push_chunk(&body[cut2..]));
            got.extend(d.finish());
            assert_eq!(got, all, "cuts at {} and {}", cut, cut2);
        }
    }
}

#[test]
fn invalid_bytes_become_replacement_characters() {
    let mut d = SseDecoder::new();
    let out = d.push_chunk(b"data: a\xffb\n\n");
    assert_eq!(out, vec!["a\u{fffd}b".to_string()]);
}

#[test]
fn incomplete_character_at_end_is_decoded_lossily() {
    let mut d = SseDecoder::new();
    let bytes = "data: x你".as_bytes();
    assert!(d.push_chunk(&bytes[..bytes.len() - 1]).is_empty());
    assert_eq!(d.finish(), vec!["x\u{fffd}".to_string()]);
}

#[test]
fn payloads_are_those_of_the_lines() {
    let body = "data: a\r\nevent: x\n\ndata:  [DONE] \n\n\n\ndata: b\ndata: c\r\n: note\n\ndata: d";
    let expected: Vec<String> = body
        .lines()
        .filter_map(|l| l.strip_prefix("data: "))
        .filter(|d| d.trim() != "[DONE]")
        .map(|d| d.to_string())
        .collect();
    let mut dec = SseDecoder::new();
    let mut got = dec.push_text(body);
    got.extend(dec.finish());
    assert_eq!(got, expected);
    assert_eq!(got, vec!["a", "b", "c", "d"]);
}

#[test]
fn carriage_return_before_blank_line_stays() {
    let mut dec = SseDecoder::new();
    assert_eq!(dec.push_text("data: x\r\n\n"), vec!["x\r".to_string()]);
}
