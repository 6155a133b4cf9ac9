use acp_sandbox::inflate::{inflate_entry, take_step, InflateFault, InflateStatus, InflateStep};
use acp_sandbox::zip_reader::{
    find_eocd, list_entry_names, read_entries_with_prefix, read_entry_bytes, read_entry_text,
    read_u16_le, read_u32_le, ZipReadError,
};
use miniz_oxide::deflate::compress_to_vec;

struct Item {
    name: Vec<u8>,
    method: u16,
    payload: Vec<u8>,
    size: u32,
}

fn stored(name: &str, data: &[u8]) -> Item {
    Item {
        name: name.as_bytes().to_vec(),
        method: 0,
        payload: data.to_vec(),
        size: data.len() as u32,
    }
}

fn deflated(name: &str, data: &[u8]) -> Item {
    Item {
        name: name.as_bytes().to_vec(),
        method: 8,
        payload: compress_to_vec(data, 6),
        size: data.len() as u32,
    }
}

fn archive(items: &[Item], comment: &[u8]) -> Vec<u8> {
    let mut out = Vec::new();
    let mut directory = Vec::new();
    for item in items {
        let offset = out.len() as u32;
        out.extend_from_slice(&0x04034b50u32.to_le_bytes());
        out.extend_from_slice(&[0; 22]);
        out.extend_from_slice(&(item.name.len() as u16).to_le_bytes());
        out.extend_from_slice(&3u16.to_le_bytes());
        out.extend_from_slice(&item.name);
        out.extend_from_slice(b"ext");
        out.extend_from_slice(&item.payload);

        directory.extend_from_slice(&0x02014b50u32.to_le_bytes());
        directory.extend_from_slice(&[0; 6]);
        directory.extend_from_slice(&item.method.to_le_bytes());
        directory.extend_from_slice(&[0; 8]);
        directory.extend_from_slice(&(item.payload.len() as u32).to_le_bytes());
        directory.extend_from_slice(&item.size.to_le_bytes());
        directory.extend_from_slice(&(item.name.len() as u16).to_le_bytes());
        directory.extend_from_slice(&1u16.to_le_bytes());
        directory.extend_from_slice(&2u16.to_le_bytes());
        directory.extend_from_slice(&[0; 8]);
        directory.extend_from_slice(&offset.to_le_bytes());
        directory.extend_from_slice(&item.name);
        directory.extend_from_slice(b"xcc");
    }
    let start = out.len() as u32;
    let size = directory.len() as u32;
    out.extend_from_slice(&directory);
    out.extend_from_slice(&0x06054b50u32.to_le_bytes());
    out.extend_from_slice(&[0; 8]);
    out.extend_from_slice(&size.to_le_bytes());
    out.extend_from_slice(&start.to_le_bytes());
    out.extend_from_slice(&(comment.len() as u16).to_le_bytes());
    out.extend_from_slice(comment);
    out
}

fn sample() -> Vec<u8> {
    archive(
        &[
            stored("plain.txt", b"as it is"),
            deflated("content/a.txt", b"first text"),
            deflated("content/b.txt", "second t\u{e9}xt".as_bytes()),
            stored("content/", b""),
        ],
        b"",
    )
}

#[test]
fn names_come_in_archive_order() {
    assert_eq!(
        list_entry_names(&sample()).unwrap(),
        vec!["plain.txt", "content/a.txt", "content/b.txt", "content/"]
    );
}

#[test]
fn names_that_are_not_text_are_left_out() {
    let odd = Item { name: vec![0xff, b'x'], method: 0, payload: vec![], size: 0 };
    let zip = archive(&[odd, stored("ok", b"")], b"");
    assert_eq!(list_entry_names(&zip).unwrap(), vec!["ok"]);
}

#[test]
fn stored_and_deflated_entries_are_read() {
    let zip = sample();
    assert_eq!(read_entry_bytes(&zip, "plain.txt", 100).unwrap().unwrap(), b"as it is");
    assert_eq!(read_entry_text(&zip, "content/a.txt", 100).unwrap().unwrap(), "first text");
    assert_eq!(read_entry_text(&zip, "content/b.txt", 100).unwrap().unwrap(), "second t\u{e9}xt");
    assert_eq!(read_entry_text(&zip, "content/", 0).unwrap().unwrap(), "");
    assert!(read_entry_text(&zip, "absent", 100).unwrap().is_none());
}

#[test]
fn long_deflated_entries_take_many_steps() {
    let data: Vec<u8> = (0..300_000u32).map(|i| (i * i % 251) as u8).collect();
    let zip = archive(&[deflated("big", &data)], b"");
    assert_eq!(read_entry_bytes(&zip, "big", 300_000).unwrap().unwrap(), data);
    let err = read_entry_bytes(&zip, "big", 299_999).unwrap_err();
    assert_eq!(
        err.to_string(),
        "entry 'big' decompresses to 300000 bytes, exceeds cap of 299999"
    );
}

#[test]
fn a_lying_size_does_not_lift_the_cap() {
    let data = vec![7u8; 200_000];
    let mut item = deflated("bomb", &data);
    item.size = 1;
    let zip = archive(&[item], b"");
    match read_entry_bytes(&zip, "bomb", 1000).unwrap_err() {
        ZipReadError::EntryTooLarge { name, cap, actual } => {
            assert_eq!(name, "bomb");
            assert_eq!(cap, 1000);
            assert!(actual > 1000);
        }
        other => panic!("unexpected error: {other:?}"),
    }
    let mut item = stored("liar", b"12345");
    item.size = 0;
    let zip = archive(&[item], b"");
    assert_eq!(
        read_entry_bytes(&zip, "liar", 4).unwrap_err().to_string(),
        "entry 'liar' decompresses to 5 bytes, exceeds cap of 4"
    );
}

#[test]
fn the_first_of_two_entries_with_one_name_is_read() {
    let zip = archive(&[stored("n", b"one"), stored("n", b"two")], b"");
    assert_eq!(read_entry_text(&zip, "n", 10).unwrap().unwrap(), "one");
    assert_eq!(list_entry_names(&zip).unwrap(), vec!["n", "n"]);
    let pairs = read_entries_with_prefix(&zip, "", 10, 10).unwrap();
    assert_eq!(pairs, vec![("n".to_string(), "one".to_string())]);
}

#[test]
fn a_comment_behind_the_end_record_is_allowed() {
    let zip = archive(&[stored("n", b"one")], &[b'c'; 65535]);
    assert_eq!(find_eocd(&zip).unwrap(), zip.len() - 22 - 65535);
    assert_eq!(read_entry_text(&zip, "n", 10).unwrap().unwrap(), "one");
    let mut longer = zip.clone();
    longer.push(0);
    assert!(matches!(find_eocd(&longer).unwrap_err(), ZipReadError::NotAZip));
}

#[test]
fn entries_with_a_prefix_come_together() {
    let zip = sample();
    let mut pairs = read_entries_with_prefix(&zip, "content/", 100, 100).unwrap();
    pairs.sort();
    assert_eq!(
        pairs,
        vec![
            ("content/".to_string(), "".to_string()),
            ("content/a.txt".to_string(), "first text".to_string()),
            ("content/b.txt".to_string(), "second t\u{e9}xt".to_string()),
        ]
    );
    assert_eq!(read_entries_with_prefix(&zip, "none", 1, 1).unwrap(), Vec::new());
    assert!(read_entries_with_prefix(&zip, "content/", 100, 22).is_ok());
    assert_eq!(
        read_entries_with_prefix(&zip, "content/", 100, 21).unwrap_err().to_string(),
        "entry 'content/b.txt' decompresses to 22 bytes, exceeds cap of 21"
    );
    assert!(read_entries_with_prefix(&zip, "content/", 9, 100).is_err());
}

#[test]
fn a_prefix_is_read_where_every_text_is_and_all_are_in_the_budget() {
    let zip = archive(
        &[
            deflated("a/1", b"12345"),
            stored("a/2", b"678"),
            stored("b/1", &[0xff]),
        ],
        b"",
    );
    let read = |prefix: &str, cap: u64, total: u64| {
        read_entries_with_prefix(&zip, prefix, cap, total)
    };
    assert_eq!(read("a/", 5, 8).unwrap().len(), 2);
    assert!(read("a/", 5, 7).is_err());
    assert!(read("a/", 4, 8).is_err());
    assert!(read("b/", 9, 9).is_err());
    assert!(read("", 9, 99).is_err());
    assert!(read("c/", 0, 0).unwrap().is_empty());
}

#[test]
fn larger_caps_change_no_success() {
    let zip = sample();
    for name in list_entry_names(&zip).unwrap() {
        let least = read_entry_bytes(&zip, &name, u64::MAX).unwrap().unwrap().len() as u64;
        for cap in [least, least + 1, 1000, u64::MAX] {
            assert_eq!(
                read_entry_bytes(&zip, &name, cap).unwrap(),
                read_entry_bytes(&zip, &name, least).unwrap()
            );
            assert_eq!(
                read_entry_text(&zip, &name, cap).unwrap(),
                read_entry_text(&zip, &name, least).unwrap()
            );
        }
    }
    assert_eq!(
        read_entries_with_prefix(&zip, "content/", 12, 22).unwrap(),
        read_entries_with_prefix(&zip, "content/", u64::MAX, u64::MAX).unwrap()
    );
}

#[test]
fn what_is_missing_is_missing_from_a_whole_list() {
    let zip = sample();
    assert_eq!(read_entry_bytes(&zip, "absent", 9).unwrap(), None);
    assert!(!list_entry_names(&zip).unwrap().contains(&"absent".to_string()));
    // With a damaged last entry the list fails, and so does the look for what is not in it.
    let mut damaged = zip.clone();
    let at = damaged.windows(4).rposition(|w| w == [0x50, 0x4b, 0x01, 0x02]).unwrap();
    damaged[at] = 0;
    assert!(list_entry_names(&damaged).is_err());
    assert!(read_entry_bytes(&damaged, "absent", 9).is_err());
    assert!(read_entry_bytes(&damaged, "plain.txt", 9).unwrap().is_some());
}

#[test]
fn what_is_no_archive_is_refused() {
    for bytes in [vec![], vec![0u8; 21], vec![b'P'; 5000]] {
        assert!(matches!(list_entry_names(&bytes).unwrap_err(), ZipReadError::NotAZip));
        let err = read_entry_text(&bytes, "n", 1).unwrap_err();
        assert_eq!(err.to_string(), "not a zip archive (missing EOCD record)");
    }
}

#[test]
fn damaged_archives_give_errors() {
    let zip = sample();
    let start = zip.len() - 22;

    let mut bad = zip.clone();
    bad[start + 12..start + 16].copy_from_slice(&u32::MAX.to_le_bytes());
    assert!(matches!(
        list_entry_names(&bad).unwrap_err(),
        ZipReadError::OffsetOutOfBounds { .. }
    ));

    let directory = u32::from_le_bytes([
        zip[start + 16],
        zip[start + 17],
        zip[start + 18],
        zip[start + 19],
    ]) as usize;
    let mut bad = zip.clone();
    bad[directory] = b'X';
    assert_eq!(
        list_entry_names(&bad).unwrap_err().to_string(),
        format!("bad signature at offset {directory}: expected 0x02014b50, got 0x02014b58")
    );

    let mut bad = zip.clone();
    bad[directory + 28..directory + 30].copy_from_slice(&u16::MAX.to_le_bytes());
    assert_eq!(
        list_entry_names(&bad).unwrap_err().to_string(),
        format!("offset {}+65535 exceeds archive bounds", directory + 46)
    );

    let mut bad = zip.clone();
    bad[directory + 30..directory + 32].copy_from_slice(&u16::MAX.to_le_bytes());
    assert!(matches!(
        list_entry_names(&bad).unwrap_err(),
        ZipReadError::OffsetOutOfBounds { len: 0, .. }
    ));

    let mut bad = zip.clone();
    bad[0] = b'X';
    assert_eq!(
        read_entry_bytes(&bad, "plain.txt", 100).unwrap_err().to_string(),
        "bad signature at offset 0: expected 0x04034b50, got 0x04034b58"
    );

    let mut bad = zip.clone();
    bad[directory + 42..directory + 46].copy_from_slice(&(zip.len() as u32).to_le_bytes());
    assert_eq!(
        read_entry_bytes(&bad, "plain.txt", 100).unwrap_err().to_string(),
        format!("offset {}+30 exceeds archive bounds", zip.len())
    );

    let mut bad = zip.clone();
    bad[directory + 20..directory + 24].copy_from_slice(&u32::MAX.to_le_bytes());
    assert!(matches!(
        read_entry_bytes(&bad, "plain.txt", 100).unwrap_err(),
        ZipReadError::OffsetOutOfBounds { .. }
    ));

    let mut bad = zip.clone();
    bad[directory + 10] = 12;
    assert_eq!(
        read_entry_bytes(&bad, "plain.txt", 100).unwrap_err().to_string(),
        "unsupported compression method 12 (only Stored and Deflated are supported)"
    );
}

#[test]
fn damaged_data_gives_errors() {
    let mut item = deflated("d", b"some data that is compressed");
    item.payload = vec![0xff; 10];
    let zip = archive(&[item], b"");
    let err = read_entry_bytes(&zip, "d", 100).unwrap_err().to_string();
    assert!(err.starts_with("deflate decode error: Err(Data) after "), "{err}");

    let err = inflate_entry(&[], 100, "d").unwrap_err().to_string();
    assert!(err.starts_with("deflate decode error: "), "{err}");
}

#[test]
fn text_must_be_utf8() {
    let zip = archive(&[stored("t", &[b'a', 0xff])], b"");
    assert_eq!(
        read_entry_text(&zip, "t", 100).unwrap_err().to_string(),
        "entry 't' is not valid UTF-8 (2 bytes): invalid utf-8 sequence of 1 bytes from index 1"
    );
    assert_eq!(read_entry_bytes(&zip, "t", 100).unwrap().unwrap(), vec![b'a', 0xff]);
}

#[test]
fn numbers_are_little_endian() {
    let bytes = [1, 2, 3, 4, 5];
    assert_eq!(read_u16_le(&bytes, 3).unwrap(), 0x0504);
    assert_eq!(read_u32_le(&bytes, 1).unwrap(), 0x05040302);
    assert_eq!(
        read_u16_le(&bytes, 4).unwrap_err().to_string(),
        "offset 4+2 exceeds archive bounds"
    );
    assert!(read_u32_le(&bytes, 2).is_err());
    assert!(read_u32_le(&bytes, usize::MAX).is_err());
}

#[test]
fn decoder_steps_are_taken_as_they_are_told() {
    let step = |written, status| InflateStep { consumed: 4, written, status };
    let buf = vec![9u8, 8, 7];
    let mut out = vec![1u8];
    let done = take_step("n", 10, &mut out, &buf, &step(2, InflateStatus::Progress), 5);
    assert!(!done.unwrap());
    assert_eq!(out, vec![1, 9, 8]);
    let done = take_step("n", 10, &mut out, &buf, &step(1, InflateStatus::StreamEnd), 0);
    assert!(done.unwrap());
    assert_eq!(out, vec![1, 9, 8, 9]);
    let err = take_step("n", 3, &mut out, &buf, &step(0, InflateStatus::StreamEnd), 0);
    assert_eq!(
        err.unwrap_err().to_string(),
        "entry 'n' decompresses to 4 bytes, exceeds cap of 3"
    );
    let err = take_step("n", 10, &mut out, &buf, &step(0, InflateStatus::NeedDict), 0);
    assert_eq!(
        err.unwrap_err().to_string(),
        "deflate decode error: stream ended without StreamEnd marker"
    );
    let failed = InflateStatus::Failed(InflateFault::Buf);
    let err = take_step("n", 10, &mut out, &buf, &step(3, failed), 0);
    assert_eq!(err.unwrap_err().to_string(), "deflate decode error: Err(Buf) after 4 bytes");
    assert_eq!(out.len(), 4);
}
