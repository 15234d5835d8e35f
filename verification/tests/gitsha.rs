use gitsha::add_bruteforce_header;
use gitsha::decode_hex;
use gitsha::encode_hex;
use gitsha::extract_commit_data;
use gitsha::format_object_path;
use gitsha::inner_loop;
use gitsha::matches_prefix;
use gitsha::parse_prefix;
use gitsha::update_hex_counter;
use gitsha::Error;
use gitsha::Repo;

#[test]
fn test_matches_prefix() {
    assert!(matches_prefix(
        &decode_hex("1234").unwrap(),
        &decode_hex("12").unwrap(),
        false
    ));
    assert!(!matches_prefix(
        &decode_hex("1134").unwrap(),
        &decode_hex("12").unwrap(),
        false
    ));

    assert!(matches_prefix(
        &decode_hex("1234").unwrap(),
        &decode_hex("123a").unwrap(), // a ignored
        true
    ));
    assert!(!matches_prefix(
        &decode_hex("1134").unwrap(),
        &decode_hex("123a").unwrap(), // a ignored
        true
    ));
}

#[test]
fn test_update_hex_counter() {
    let mut buffer = "xxxxyyyyyyyyyyyyyyyy".as_bytes().to_vec();

    update_hex_counter(&mut buffer, 0, 4);
    assert_eq!(
        String::from_utf8(buffer.clone()).unwrap(),
        String::from("xxxx0000000000000000")
    );

    update_hex_counter(&mut buffer, 1, 4);
    assert_eq!(
        String::from_utf8(buffer.clone()).unwrap(),
        String::from("xxxx1000000000000000")
    );

    update_hex_counter(&mut buffer, 17, 4);
    assert_eq!(
        String::from_utf8(buffer.clone()).unwrap(),
        String::from("xxxx1100000000000000")
    );

    update_hex_counter(&mut buffer, 0xefff_ffff_ffff_ffff, 4);
    assert_eq!(
        String::from_utf8(buffer.clone()).unwrap(),
        String::from("xxxxfffffffffffffffe")
    );
}

#[test]
fn test_hex_round_trip() {
    let decoded = decode_hex("1A2b3C").unwrap();
    assert_eq!(decoded, vec![0x1a, 0x2b, 0x3c]);
    assert_eq!(encode_hex(&decoded), b"1a2b3c".to_vec());

    let decoded = decode_hex("00ff").unwrap();
    assert_eq!(decoded, vec![0x00, 0xff]);
    assert_eq!(encode_hex(&decoded), b"00ff".to_vec());

    assert_eq!(decode_hex(""), Ok(vec![]));
    assert_eq!(encode_hex(&vec![]), Vec::<u8>::new());
}

#[test]
fn test_decode_hex_rejects_invalid_characters() {
    assert_eq!(decode_hex("zz"), Err(Error::InvalidCharacter));
    assert_eq!(decode_hex("1g"), Err(Error::InvalidCharacter));
}

#[test]
fn test_parse_prefix() {
    assert_eq!(parse_prefix("ab"), Ok((vec![0xab], false)));
    assert_eq!(parse_prefix("abc"), Ok((vec![0xab, 0xc0], true)));
    assert_eq!(parse_prefix("0"), Ok((vec![0x00], true)));
    assert_eq!(parse_prefix("xy"), Err(Error::InvalidPrefixFormat));
    let too_long = "0".repeat(41);
    assert_eq!(parse_prefix(&too_long), Err(Error::InvalidPrefixFormat));
    let full = "f".repeat(40);
    let (target, half) = parse_prefix(&full).unwrap();
    assert_eq!(target, vec![0xff; 20]);
    assert!(!half);
}

#[test]
fn test_extract_commit_data() {
    let data = b"commit 20\0tree 0000\n\nmsg".to_vec();
    assert_eq!(
        extract_commit_data(&data),
        Ok(b"tree 0000\n\nmsg".to_vec())
    );

    let no_zero = b"commit 20 tree".to_vec();
    assert_eq!(extract_commit_data(&no_zero), Err(Error::MalformedObject));

    let not_commit = b"blob 20\0xx".to_vec();
    assert_eq!(extract_commit_data(&not_commit), Err(Error::NotACommit));
}

#[test]
fn test_add_bruteforce_header() {
    let data = b"commit 20\0tree 0000\n\nmsg".to_vec();
    let (buf, idx) = add_bruteforce_header(&data).unwrap();
    let expected =
        b"commit 43\0tree 0000\nbruteforce 0000000000000000\n\n\nmsg".to_vec();
    assert_eq!(buf, expected);
    assert_eq!(idx, 19);
    // The synthetic header always lands right after the existing headers,
    // and the embedded length is the rebuilt inner payload's byte count.
    let body_len = b"tree 0000\n\nmsg".len();
    assert_eq!(
        body_len + 29,
        b"tree 0000".len() + b"\nbruteforce 0000000000000000\n".len() + 2 + b"msg".len()
    );

    let no_sep = b"commit 5\0hello".to_vec();
    assert_eq!(add_bruteforce_header(&no_sep), Err(Error::MalformedObject));
}

#[test]
fn test_inner_loop_strides_are_disjoint() {
    let data = b"commit 20\0tree 0000\n\nmsg".to_vec();
    let (buf, idx) = add_bruteforce_header(&data).unwrap();
    let hex_counter_start = idx + 12;
    // A full twenty-byte target: no candidate will match it here.
    let (target, half) = parse_prefix(&"f".repeat(40)).unwrap();

    let stride: usize = 3;
    let mut seen = Vec::new();
    for worker in 0..stride {
        let mut i = worker;
        let mut commit_data = buf.clone();
        for _ in 0..5 {
            let counter = i;
            let r = inner_loop(
                &mut i,
                &mut commit_data,
                hex_counter_start,
                &target,
                half,
                &stride,
            );
            assert!(r.is_none());
            assert_eq!(i, counter + stride);
            assert_eq!(counter % stride, worker);
            assert!(!seen.contains(&counter));
            seen.push(counter);
        }
    }
    assert_eq!(seen.len(), 15);
}

#[test]
fn test_inner_loop_finds_match() {
    let data = b"commit 20\0tree 0000\n\nmsg".to_vec();
    let (buf, idx) = add_bruteforce_header(&data).unwrap();
    let hex_counter_start = idx + 12;
    let (target, half) = parse_prefix("0").unwrap();

    let mut i: usize = 0;
    let stride: usize = 1;
    let mut commit_data = buf.clone();
    let mut result = None;
    for _ in 0..100_000 {
        if let Some(found) = inner_loop(
            &mut i,
            &mut commit_data,
            hex_counter_start,
            &target,
            half,
            &stride,
        ) {
            result = Some(found);
            break;
        }
    }
    let (winning, text) = result.expect("a one-nibble prefix must be found quickly");

    // The digest text begins with the requested prefix.
    assert_eq!(text.chars().next(), Some('0'));
    assert_eq!(text.len(), 40);

    // The winning buffer, hashed again, reproduces the digest text exactly.
    let recomputed = <sha1::Sha1 as sha1::Digest>::digest(&winning);
    let mut recomputed_text = String::new();
    for b in recomputed.iter() {
        recomputed_text.push_str(&format!("{:02x}", b));
    }
    assert_eq!(text, recomputed_text);

    // The winning buffer is the private buffer as last mutated.
    assert_eq!(winning, commit_data);
    // Outside the counter field the prepared buffer is untouched.
    assert_eq!(&winning[..hex_counter_start], &buf[..hex_counter_start]);
    assert_eq!(&winning[hex_counter_start + 16..], &buf[hex_counter_start + 16..]);
}

#[test]
fn test_format_object_path() {
    assert_eq!(
        format_object_path("abcdef"),
        String::from(".git/objects/ab/cdef")
    );
    let sha = "0123456789012345678901234567890123456789";
    assert_eq!(
        format_object_path(sha),
        String::from(".git/objects/01/23456789012345678901234567890123456789")
    );
}

#[test]
fn test_repo_new() {
    let repo = Repo::new(String::from("/some/root"));
    assert_eq!(repo.git_root, String::from("/some/root"));
}
