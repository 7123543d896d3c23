use aether_render::tags::{decode_tags, ControlFlow, TagError};
use swf::TagCode;

/// A tag header is a u16 of `code << 6 | length`, with 0x3F meaning "a u32 length follows".
fn tag(code: u16, body: &[u8]) -> Vec<u8> {
    let mut out = Vec::new();
    if body.len() < 0x3F {
        out.extend_from_slice(&((code << 6) | body.len() as u16).to_le_bytes());
    } else {
        out.extend_from_slice(&((code << 6) | 0x3F).to_le_bytes());
        out.extend_from_slice(&(body.len() as u32).to_le_bytes());
    }
    out.extend_from_slice(body);
    out
}

/// ShowFrame, a DefineSprite with a body nobody reads, ShowFrame, End.
fn stream() -> Vec<u8> {
    let mut data = tag(1, &[]);
    data.extend(tag(39, &[0xAA; 10]));
    data.extend(tag(1, &[]));
    data.extend(tag(0, &[]));
    data
}

fn visit(input: &mut &[u8], stop_at: Option<TagCode>) -> Vec<TagCode> {
    let mut seen = Vec::new();
    let _ = decode_tags(input, 10, |_reader, tag| {
        seen.push(tag);
        Ok::<ControlFlow, ()>(if Some(tag) == stop_at {
            ControlFlow::Exit
        } else {
            ControlFlow::Continue
        })
    });
    seen
}

#[test]
fn continuing_from_a_callback_skips_the_rest_of_that_tag() {
    let data = stream();
    let mut input: &[u8] = &data;
    assert_eq!(
        visit(&mut input, None),
        vec![
            TagCode::ShowFrame,
            TagCode::DefineSprite,
            TagCode::ShowFrame,
            TagCode::End
        ],
    );
}

#[test]
fn exiting_ends_the_pass_and_a_resumed_one_starts_after_that_tag() {
    let data = stream();
    let mut input: &[u8] = &data;

    let first = visit(&mut input, Some(TagCode::DefineSprite));
    assert_eq!(first, vec![TagCode::ShowFrame, TagCode::DefineSprite]);

    let second = visit(&mut input, Some(TagCode::DefineSprite));
    assert_eq!(second, vec![TagCode::ShowFrame, TagCode::End]);
}

#[test]
fn a_tag_longer_than_the_stream_ends_the_walk_and_consumes_the_rest() {
    let mut data = tag(1, &[]);
    // Claims five bytes of body, holds two.
    data.extend_from_slice(&((39u16 << 6) | 5).to_le_bytes());
    data.extend_from_slice(&[1, 2]);
    let mut input: &[u8] = &data;
    let result = decode_tags(&mut input, 10, |_reader, _tag| {
        Ok::<ControlFlow, ()>(ControlFlow::Continue)
    });
    assert!(matches!(result, Ok(false)));
    assert!(input.is_empty());
}

#[test]
fn an_exit_returns_true_and_a_long_header_is_read_in_full() {
    let body = [7u8; 100];
    let mut data = tag(39, &body);
    data.extend(tag(1, &[]));
    let mut input: &[u8] = &data;
    let mut lengths = Vec::new();
    let result = decode_tags(&mut input, 10, |reader, _tag| {
        lengths.push(reader.get_ref().len());
        Ok::<ControlFlow, ()>(ControlFlow::Exit)
    });
    assert!(matches!(result, Ok(true)));
    assert_eq!(lengths, vec![100]);
    assert_eq!(input, &tag(1, &[])[..]);
}

#[test]
fn unknown_tags_and_callback_errors_are_passed_over() {
    let mut data = tag(1000, &[1, 2, 3]);
    data.extend(tag(1, &[]));
    data.extend(tag(0, &[]));
    let mut input: &[u8] = &data;
    let mut seen = Vec::new();
    let result = decode_tags(&mut input, 10, |_reader, tag| {
        seen.push(tag);
        if tag == TagCode::ShowFrame {
            Err("broken")
        } else {
            Ok(ControlFlow::Continue)
        }
    });
    assert_eq!(seen, vec![TagCode::ShowFrame, TagCode::End]);
    // Running off the end of the stream is a read error.
    assert!(matches!(result, Err(TagError::InvalidSwf(_))));
    assert!(input.is_empty());
}

#[test]
fn each_callback_reads_exactly_its_own_tag_body() {
    let mut data = tag(39, &[1, 2, 3]);
    data.extend(tag(1, &[]));
    data.extend(tag(39, &[9; 70]));
    let mut input: &[u8] = &data;
    let mut bodies: Vec<Vec<u8>> = Vec::new();
    let result = decode_tags(&mut input, 10, |reader, _tag| {
        bodies.push(reader.get_ref().to_vec());
        Ok::<ControlFlow, ()>(ControlFlow::Continue)
    });
    assert!(result.is_err(), "the walk ends at the empty stream");
    assert_eq!(bodies, vec![vec![1, 2, 3], vec![], vec![9; 70]]);
}
