use hexview::render::{chunk_len, render_chunk, render_dump};

fn dump_str(data: &[u8]) -> String {
    String::from_utf8(render_dump(data)).unwrap()
}

#[test]
fn full_line_of_text_bytes() {
    let out = dump_str(&[0x41u8; 16]);
    assert_eq!(
        out,
        "000000000000: 41 41 41 41 41 41 41 41  41 41 41 41 41 41 41 41  AAAAAAAAAAAAAAAA\n"
    );
}

#[test]
fn seventeen_bytes_make_two_lines() {
    let out = dump_str(&[0x41u8; 17]);
    let expected_first =
        "000000000000: 41 41 41 41 41 41 41 41  41 41 41 41 41 41 41 41  AAAAAAAAAAAAAAAA\n";
    let expected_second = format!("000000000010: 41 {} A\n", " ".repeat(45));
    assert_eq!(out, format!("{expected_first}{expected_second}"));
    assert_eq!(out.lines().count(), 2);
}

#[test]
fn empty_input_renders_nothing() {
    assert_eq!(dump_str(&[]), "");
}

#[test]
fn all_zero_line_is_compressed() {
    assert_eq!(dump_str(&[0u8; 16]), "00...\n");
    assert_eq!(dump_str(&[0u8; 48]), "00...\n00...\n00...\n");
}

#[test]
fn partial_all_zero_line_is_compressed_too() {
    assert_eq!(dump_str(&[0u8; 3]), "00...\n");
    let out = dump_str(&[0u8; 17]);
    assert_eq!(out, "00...\n00...\n");
}

#[test]
fn one_nonzero_byte_expands_the_line() {
    let mut data = [0u8; 16];
    data[15] = 1;
    let out = dump_str(&data);
    assert_eq!(
        out,
        "000000000000: 00 00 00 00 00 00 00 00  00 00 00 00 00 00 00 01  ................\n"
    );
}

#[test]
fn printable_boundaries() {
    // 0x1f is below the printable range, 0x20 (space) and 0x7e are inside,
    // 0x7f is above.
    let out = dump_str(&[0x1f, 0x20, 0x7e, 0x7f]);
    let expected = format!("000000000000: 1f 20 7e 7f {} . ~.\n", " ".repeat(36));
    assert_eq!(out, expected);
}

#[test]
fn eight_byte_final_line_gets_the_straddle_space() {
    // (16 - 8) * 3 = 24 is a multiple of 8, so the padding grows by one.
    let out = dump_str(&[0x61u8; 8]);
    let expected = format!(
        "000000000000: 61 61 61 61 61 61 61 61 {} aaaaaaaa\n",
        " ".repeat(25)
    );
    assert_eq!(out, expected);
}

#[test]
fn hex_digits_reparse_to_the_input_bytes() {
    let data: Vec<u8> = (0..16u16).map(|i| (i * 17 + 3) as u8).collect();
    let out = dump_str(&data);
    let line = out.lines().next().unwrap();
    let hex_area = &line[14..63];
    let parsed: Vec<u8> = hex_area
        .split_whitespace()
        .map(|pair| u8::from_str_radix(pair, 16).unwrap())
        .collect();
    assert_eq!(parsed, data);
}

#[test]
fn offsets_are_increasing_multiples_of_sixteen() {
    let data: Vec<u8> = (0..80u16).map(|i| (i % 251 + 1) as u8).collect();
    let out = dump_str(&data);
    let mut expected_off = 0u64;
    for line in out.lines() {
        let off = u64::from_str_radix(&line[..12], 16).unwrap();
        assert_eq!(off, expected_off);
        assert_eq!(off % 16, 0);
        expected_off += 16;
    }
    assert_eq!(expected_off, 80);
}

#[test]
fn chunk_offset_advances_sixteen_per_line() {
    let (_, next) = render_chunk(0, &[1u8; 16]);
    assert_eq!(next, 16);
    let (_, next) = render_chunk(0, &[1u8; 17]);
    assert_eq!(next, 32);
    let (_, next) = render_chunk(1536, &[0u8; 1536]);
    assert_eq!(next, 3072);
    let (_, next) = render_chunk(0, &[]);
    assert_eq!(next, 0);
}

#[test]
fn rendering_resumes_across_chunks() {
    let data: Vec<u8> = (0..3000u32).map(|i| (i % 256) as u8).collect();
    let whole = render_dump(&data);
    let (first, mid) = render_chunk(0, &data[..1536]);
    let (second, end) = render_chunk(mid, &data[1536..]);
    let mut stitched = first;
    stitched.extend_from_slice(&second);
    assert_eq!(stitched, whole);
    assert_eq!(end, 3008);
}

#[test]
fn wide_offsets_grow_past_twelve_digits() {
    let (out, _) = render_chunk(0x1000000000000, &[0x01]);
    let expected = format!("1000000000000: 01 {} .\n", " ".repeat(45));
    assert_eq!(String::from_utf8(out).unwrap(), expected);
}

#[test]
fn chunk_len_caps_reads() {
    assert_eq!(chunk_len(0), 0);
    assert_eq!(chunk_len(1), 1);
    assert_eq!(chunk_len(1535), 1535);
    assert_eq!(chunk_len(1536), 1536);
    assert_eq!(chunk_len(10_000), 1536);
    assert_eq!(chunk_len(u64::MAX), 1536);
}
