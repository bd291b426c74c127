use httped::dynamic_data::{byte_count, bytes_download, chunk_size, ulid, uuid_v4, uuid_v7, ByteStream};
use httped::random::new_rng;

#[test]
fn byte_counts_are_capped() {
    assert_eq!(byte_count(0), 0);
    assert_eq!(byte_count(1024), 1024);
    assert_eq!(byte_count(1_000_000), 1_000_000);
    assert_eq!(byte_count(1_000_001), 1_000_000);
    assert_eq!(byte_count(u32::MAX), 1_000_000);
}

#[test]
fn chunk_sizes_default_to_8k() {
    assert_eq!(chunk_size(None), 8192);
    assert_eq!(chunk_size(Some(0)), 8192);
    assert_eq!(chunk_size(Some(1)), 1);
    assert_eq!(chunk_size(Some(100_000)), 100_000);
}

#[test]
fn downloads_have_the_requested_length() {
    let d = bytes_download(10, Some(1), None);
    assert_eq!(d.length, 10);
    assert_eq!(d.body.len(), 10);
    assert_eq!(d.disposition, "attachment");
    let again = bytes_download(10, Some(1), Some("x y".to_string()));
    assert_eq!(again.body, d.body);
    assert_eq!(again.disposition, "attachment; filename=x%20y; filename*=utf-8''x%20y");
    assert_eq!(bytes_download(10, Some(2), None).body.len(), 10);
    let big = bytes_download(2_000_000, None, None);
    assert_eq!(big.body.len(), 1_000_000);
}

#[test]
fn streams_send_exactly_the_requested_bytes() {
    let mut rng = new_rng(Some(42));
    let mut s = ByteStream::new(20, Some(8));
    let mut lens = Vec::new();
    while let Some(chunk) = s.next_chunk(&mut rng) {
        lens.push(chunk.len());
    }
    assert_eq!(lens, vec![8, 8, 4]);
    assert!(s.next_chunk(&mut rng).is_none());

    let mut s = ByteStream::new(0, None);
    assert!(s.next_chunk(&mut rng).is_none());

    let mut s = ByteStream::new(20000, Some(0));
    let mut total = 0;
    let mut count = 0;
    while let Some(chunk) = s.next_chunk(&mut rng) {
        assert!(chunk.len() <= 8192 && !chunk.is_empty());
        total += chunk.len();
        count += 1;
    }
    assert_eq!((total, count), (20000, 3));

    let mut first = Vec::new();
    let mut second = Vec::new();
    for out in [&mut first, &mut second] {
        let mut rng = new_rng(Some(5));
        let mut s = ByteStream::new(1000, Some(300));
        while let Some(chunk) = s.next_chunk(&mut rng) {
            out.push(chunk);
        }
    }
    assert_eq!(first, second);
    assert_eq!(first.iter().map(|c| c.len()).collect::<Vec<_>>(), vec![300, 300, 300, 100]);
}

fn check_uuid(s: &str, version: char) {
    let c: Vec<char> = s.chars().collect();
    assert_eq!(c.len(), 36);
    for (i, ch) in c.iter().enumerate() {
        if [8, 13, 18, 23].contains(&i) {
            assert_eq!(*ch, '-');
        } else {
            assert!(ch.is_ascii_digit() || ('a'..='f').contains(ch));
        }
    }
    assert_eq!(c[14], version);
    assert!("89ab".contains(c[19]));
}

#[test]
fn uuids_and_ulids_have_their_text_forms() {
    check_uuid(&uuid_v4(), '4');
    check_uuid(&uuid_v7(), '7');
    assert_ne!(uuid_v4(), uuid_v4());
    let u = ulid();
    assert_eq!(u.len(), 26);
    assert!(u.chars().all(|c| "0123456789ABCDEFGHJKMNPQRSTVWXYZ".contains(c)));
    assert!(u.chars().next().unwrap() <= '7');
}
