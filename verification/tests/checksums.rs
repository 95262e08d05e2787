use sentry_cli::checksum::{get_sha1_checksum, get_sha1_checksums, Checksum, ChecksumError, Digest};

#[test]
fn sha1_checksums_power_of_two() {
    let data = b"this is some binary data for the test";
    let (total_sha, chunks) =
        get_sha1_checksums(data, 16).expect("Method should not fail because 16 is not zero");

    assert_eq!(
        total_sha.to_string(),
        "8e2f54f899107ad16af3f0bc8cc6e39a0fd9299e"
    );

    let chunks_str = chunks.iter().map(|c| c.to_string()).collect::<Vec<_>>();

    assert_eq!(
        chunks_str,
        vec![
            "aba4463482b4960f67a3b49ee5114b5d5e80bc28",
            "048509d362da6a10e180bf18c7c80752e3d4f44f",
            "81d55bec0f2bb3c521dcd40663cd525bb4808054"
        ]
    );
}

#[test]
fn sha1_checksums_not_power_of_two() {
    let data = b"this is some binary data for the test";

    let (total_sha, chunks) =
        get_sha1_checksums(data, 17).expect("Method should not fail because 17 is not zero");

    assert_eq!(
        total_sha.to_string(),
        "8e2f54f899107ad16af3f0bc8cc6e39a0fd9299e"
    );

    let chunks_str = chunks.iter().map(|c| c.to_string()).collect::<Vec<_>>();

    assert_eq!(
        chunks_str,
        vec![
            "d84b7535763d088169943895014c8db840ee80bc",
            "7e65be6f54369a71b98aacf5fccc4daec1da6fe0",
            "665de1f2775ca0b64d3ceda7c1b4bd15e32a73ed"
        ]
    );
}

#[test]
fn sha1_checksums_zero() {
    let data = b"this is some binary data for the test";
    get_sha1_checksums(data, 0).expect_err("Method should fail because 0 is zero");
}

#[test]
fn zero_chunk_size_has_a_message() {
    let error = get_sha1_checksums(b"", 0).unwrap_err();
    assert_eq!(error, ChecksumError::ZeroChunkSize);
    assert_eq!(error.message(), "Chunk size may not be zero.");
}

#[test]
fn empty_input_has_a_checksum_and_no_chunks() {
    let (total, chunks) = get_sha1_checksums(b"", 8).unwrap();
    assert_eq!(total.to_string(), "da39a3ee5e6b4b0d3255bfef95601890afd80709");
    assert!(chunks.is_empty());
}

#[test]
fn chunk_that_holds_everything_has_the_total_checksum() {
    let (total, chunks) = get_sha1_checksums(b"Hello World!", usize::MAX).unwrap();
    assert_eq!(total.to_string(), "2ef7bde608ce5404e97d5f042f95f89f1c232871");
    assert_eq!(chunks, vec![total]);
}

#[test]
fn pieces_do_not_matter() {
    let checksum = Checksum::new();
    assert!(checksum.has_room(6));
    let checksum = checksum.update(b"Hello ").update(b"").update(b"World!");
    assert_eq!(checksum.digest(), get_sha1_checksum(b"Hello World!"));
    assert!(!checksum.has_room(usize::MAX));
}

#[test]
fn digest_has_twenty_bytes() {
    let digest: Digest = get_sha1_checksum(b"Hello World!");
    assert_eq!(digest.bytes()[..4], [0x2e, 0xf7, 0xbd, 0xe6]);
    assert_eq!(digest.to_string().len(), 40);
}

#[test]
fn aligned_parts_have_the_checksums_of_the_whole() {
    let (total, whole) = get_sha1_checksums(b"abcdefghij", 4).unwrap();
    let (_, first) = get_sha1_checksums(b"abcdefgh", 4).unwrap();
    let (_, second) = get_sha1_checksums(b"ij", 4).unwrap();
    assert_eq!(whole, [first, second].concat());
    assert_eq!(get_sha1_checksums(b"abcdefghij", 3).unwrap().0, total);
    assert_eq!(get_sha1_checksum(b"abcdefghij"), total);
}
