use git_objects::sha1::sha1;

fn hex_of(digest: [u8; 20]) -> String {
    hex::encode(digest)
}

fn pattern(len: usize) -> Vec<u8> {
    (0..len).map(|i| ((i * 7 + 3) % 256) as u8).collect()
}

#[test]
fn empty() {
    let result = sha1(&[]);
    assert_eq!(
        result,
        [
            0xda, 0x39, 0xa3, 0xee, 0x5e, 0x6b, 0x4b, 0x0d, 0x32, 0x55, 0xbf, 0xef, 0x95, 0x60,
            0x18, 0x90, 0xaf, 0xd8, 0x07, 0x09
        ]
    );
}

#[test]
fn simple() {
    let data = "The quick brown fox jumps over the lazy dog";
    let result = sha1(data.as_bytes());
    assert_eq!(
        result,
        [
            0x2f, 0xd4, 0xe1, 0xc6, 0x7a, 0x2d, 0x28, 0xfc, 0xed, 0x84, 0x9e, 0xe1, 0xbb, 0x76,
            0xe7, 0x39, 0x1b, 0x93, 0xeb, 0x12
        ]
    );

    let hex_str = hex::encode(result);
    assert_eq!(hex_str, "2fd4e1c67a2d28fced849ee1bb76e7391b93eb12");
}

#[test]
fn three_letters() {
    assert_eq!(hex_of(sha1(b"abc")), "a9993e364706816aba3e25717850c26c9cd0d89d");
}

#[test]
fn digest_is_deterministic() {
    let data = pattern(300);
    assert_eq!(sha1(&data), sha1(&data));
    assert_eq!(sha1(&data).len(), 20);
}

#[test]
fn padding_fills_one_block() {
    // 55 bytes, the 0x80 byte and the bit count make exactly 64.
    assert_eq!(hex_of(sha1(&pattern(55))), "ddf57317ef34bfee3b6df83d359098930eb278bc");
}

#[test]
fn padding_spills_into_a_second_block() {
    // From 56 bytes on the bit count no longer fits behind the 0x80 byte.
    assert_eq!(hex_of(sha1(&pattern(56))), "a0d492bb0fc889d0eca3bc137066ab6f4f74f369");
    assert_eq!(hex_of(sha1(&pattern(57))), "11a02dcf95859677a62e75024067c22b165d890f");
    assert_eq!(hex_of(sha1(&pattern(63))), "c55856749bef509bdfe6bfebfc7bf4e793e82132");
}

#[test]
fn whole_blocks() {
    assert_eq!(hex_of(sha1(&pattern(64))), "bede92be29c3874e1b54ddc77988d606fc857a8e");
    assert_eq!(hex_of(sha1(&pattern(65))), "b05a80522b053d6dc7e0a517d0e70212c7dad11f");
    assert_eq!(hex_of(sha1(&pattern(128))), "a09133e6730ffe899efb70204cb5646cd5dc24ee");
}

#[test]
fn longer_messages() {
    assert_eq!(hex_of(sha1(&pattern(119))), "504e27376a6e0f0dba8295b85cb25dc4dfa17d23");
    assert_eq!(hex_of(sha1(&pattern(120))), "82134b02fb3f702491be9bed581eeab59334acb2");
    assert_eq!(hex_of(sha1(&pattern(1000))), "4231a8a50a10fa9758db8ec71fdef855b751048a");
}
