use embercore::wire::{Codec, CodecError, FramePoll};

fn encoded(body: &[u8]) -> Vec<u8> {
    let mut codec = Codec::new();
    codec.buffer(body).unwrap();
    codec.output_bytes().to_vec()
}

#[test]
fn frame_starts_with_its_length() {
    assert_eq!(encoded(&[7, 8, 9]), vec![3, 7, 8, 9]);
    assert_eq!(encoded(&[]), vec![0]);
}

#[test]
fn long_frame_has_two_byte_length() {
    let body = vec![0xAB; 300];
    let bytes = encoded(&body);
    assert_eq!(&bytes[..2], &[0xAC, 0x02]);
    assert_eq!(bytes.len(), 302);
    assert_eq!(&bytes[2..], &body[..]);
}

#[test]
fn frames_round_trip() {
    let bodies: Vec<Vec<u8>> = vec![vec![], vec![1], vec![5; 127], vec![6; 128], vec![9; 1000]];
    for body in bodies {
        let mut reader = Codec::new();
        reader.fill(&encoded(&body));
        assert_eq!(reader.poll(), Ok(FramePoll::Frame { body: body.clone(), more: false }));
        assert_eq!(reader.poll(), Ok(FramePoll::Pending));
    }
}

#[test]
fn byte_by_byte_delivery_yields_one_frame() {
    let body: Vec<u8> = (0..200u8).collect();
    let bytes = encoded(&body);
    let mut reader = Codec::new();
    let mut frames = Vec::new();
    for b in &bytes {
        reader.fill(&[*b]);
        match reader.poll().unwrap() {
            FramePoll::Frame { body, .. } => frames.push(body),
            FramePoll::Pending => {}
            FramePoll::End => panic!("stream ended early"),
        }
    }
    assert_eq!(frames, vec![body]);
}

#[test]
fn uneven_chunks_match_whole_delivery() {
    let body = vec![3u8; 150];
    let bytes = encoded(&body);
    let mut reader = Codec::new();
    let mut frames = Vec::new();
    for chunk in bytes.chunks(7) {
        reader.fill(chunk);
        if let FramePoll::Frame { body, .. } = reader.poll().unwrap() {
            frames.push(body);
        }
    }
    assert_eq!(frames, vec![body]);
}

#[test]
fn two_buffered_frames_announce_the_second() {
    let mut bytes = encoded(&[1, 2]);
    bytes.extend(encoded(&[3]));
    let mut reader = Codec::new();
    reader.fill(&bytes);
    assert_eq!(reader.poll(), Ok(FramePoll::Frame { body: vec![1, 2], more: true }));
    assert_eq!(reader.poll(), Ok(FramePoll::Frame { body: vec![3], more: false }));
}

#[test]
fn partial_frame_then_close_ends_stream() {
    let mut reader = Codec::new();
    reader.fill(&[5, 1, 2]);
    assert_eq!(reader.poll(), Ok(FramePoll::Pending));
    reader.close_input();
    assert_eq!(reader.poll(), Ok(FramePoll::End));
}

#[test]
fn closed_stream_still_hands_out_whole_frames() {
    let mut reader = Codec::new();
    reader.fill(&[1, 42]);
    reader.close_input();
    assert_eq!(reader.poll(), Ok(FramePoll::Frame { body: vec![42], more: false }));
    assert_eq!(reader.poll(), Ok(FramePoll::End));
}

#[test]
fn overlong_length_prefix_is_malformed() {
    let mut reader = Codec::new();
    reader.fill(&[0xFF; 9]);
    assert_eq!(reader.poll(), Ok(FramePoll::Pending));
    reader.fill(&[0xFF]);
    assert_eq!(reader.poll(), Err(CodecError::MalformedLength));
}

#[test]
fn tenth_length_byte_over_one_is_malformed() {
    let mut reader = Codec::new();
    let mut bytes = vec![0x80; 9];
    bytes.push(0x02);
    reader.fill(&bytes);
    assert_eq!(reader.poll(), Err(CodecError::MalformedLength));
}

#[test]
fn written_bytes_leave_the_output() {
    let mut codec = Codec::new();
    assert!(codec.output_is_empty());
    codec.buffer(&[1, 2, 3]).unwrap();
    codec.buffer(&[4]).unwrap();
    assert_eq!(codec.output_bytes(), &[3, 1, 2, 3, 1, 4]);
    codec.consume_output(4);
    assert_eq!(codec.output_bytes(), &[1, 4]);
    codec.consume_output(2);
    assert!(codec.output_is_empty());
}
