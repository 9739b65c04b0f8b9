use router_core::digest::{auth_response, join_challenge, join_credentials, md5_hex, sha256_hex};

#[test]
fn golden_vector_matches_known_digest() {
    let answer = auth_response("admin", "Keenetic Giga", "secret", "ABCDEF0123456789");
    assert_eq!(
        answer,
        "5c269cb91791bd81a932b6b9e42ea7aadf458d8fd81a486fea22d696fc210e8c"
    );
}

#[test]
fn first_stage_is_md5_of_joined_credentials() {
    let joined = join_credentials("admin", "Keenetic Giga", "secret");
    assert_eq!(joined, "admin:Keenetic Giga:secret");
    assert_eq!(md5_hex(&joined), "5a003182ec3148acffc551bd5d0855b8");
}

#[test]
fn second_stage_puts_challenge_directly_in_front() {
    let salted = join_challenge("ABCDEF0123456789", "5a003182ec3148acffc551bd5d0855b8");
    assert_eq!(salted, "ABCDEF01234567895a003182ec3148acffc551bd5d0855b8");
    assert_eq!(
        sha256_hex(&salted),
        "5c269cb91791bd81a932b6b9e42ea7aadf458d8fd81a486fea22d696fc210e8c"
    );
}

#[test]
fn digest_hashes_utf8_bytes_of_non_ascii_text() {
    let answer = auth_response("admin", "realm", "pässwörd", "Zm9v");
    assert_eq!(
        answer,
        "890b7f413218c30da94d834b9b97fd7842ef647d034c78a93d9698c4e3b576ba"
    );
}

#[test]
fn digest_of_empty_inputs() {
    assert_eq!(join_credentials("", "", ""), "::");
    assert_eq!(md5_hex("::"), "4501c091b0366d76ea3218b6cfdd8097");
    assert_eq!(
        auth_response("", "", "", ""),
        "9cbfae9f5f7762c504f80c2fbf31518e5ba086300723855b84a901cc224d06a8"
    );
}

#[test]
fn md5_hex_known_values() {
    assert_eq!(md5_hex(""), "d41d8cd98f00b204e9800998ecf8427e");
    assert_eq!(md5_hex("hello"), "5d41402abc4b2a76b9719d911017c592");
}

#[test]
fn sha256_hex_known_values() {
    assert_eq!(
        sha256_hex(""),
        "e3b0c44298fc1c149afbf4c8996fb92427ae41e4649b934ca495991b7852b855"
    );
    assert_eq!(
        sha256_hex("abc"),
        "ba7816bf8f01cfea414140de5dae2223b00361a396177a9cb410ff61f20015ad"
    );
}

#[test]
fn answer_is_sixty_four_lower_case_hex_digits() {
    let answer = auth_response("user", "r", "p", "c");
    assert_eq!(answer.len(), 64);
    assert!(answer
        .chars()
        .all(|c| c.is_ascii_digit() || ('a'..='f').contains(&c)));
}
