use adb_trigger::framing::LineFramer;

#[test]
fn one_terminated_line_comes_out_whole() {
    let mut f = LineFramer::new();
    let lines = f.push_chunk(b"c-192.168.1.5:5555\n");
    assert_eq!(lines, vec![b"c-192.168.1.5:5555".to_vec()]);
}

#[test]
fn partial_line_without_newline_is_not_delivered() {
    let mut f = LineFramer::new();
    let lines = f.push_chunk(b"c-192.168.1.5:55");
    assert_eq!(lines, Vec::<Vec<u8>>::new());
}

#[test]
fn line_split_across_chunks_is_reassembled() {
    let mut f = LineFramer::new();
    assert_eq!(f.push_chunk(b"p-1.2.3.4"), Vec::<Vec<u8>>::new());
    let lines = f.push_chunk(b":5-000000\nd-");
    assert_eq!(lines, vec![b"p-1.2.3.4:5-000000".to_vec()]);
    let lines = f.push_chunk(b"X\n");
    assert_eq!(lines, vec![b"d-X".to_vec()]);
}

#[test]
fn several_lines_in_one_chunk_keep_their_order() {
    let mut f = LineFramer::new();
    let lines = f.push_chunk(b"p-1.2.3.4:5-000000\nc-1.2.3.4:6\n");
    assert_eq!(
        lines,
        vec![b"p-1.2.3.4:5-000000".to_vec(), b"c-1.2.3.4:6".to_vec()]
    );
}

#[test]
fn carriage_return_before_newline_is_stripped() {
    let mut f = LineFramer::new();
    let lines = f.push_chunk(b"d-X\r\nd-Y\n");
    assert_eq!(lines, vec![b"d-X".to_vec(), b"d-Y".to_vec()]);
}

#[test]
fn empty_line_is_delivered_empty() {
    let mut f = LineFramer::new();
    let lines = f.push_chunk(b"\n");
    assert_eq!(lines, vec![Vec::<u8>::new()]);
}

#[test]
fn trailing_partial_line_stays_buffered_after_complete_lines() {
    let mut f = LineFramer::new();
    let lines = f.push_chunk(b"c-1.2.3.4:5\nc-1.2.3.4");
    assert_eq!(lines, vec![b"c-1.2.3.4:5".to_vec()]);
    let lines = f.push_chunk(b"");
    assert_eq!(lines, Vec::<Vec<u8>>::new());
}
