use sudoers::{analyze, DigestAlg, Error, Sudoers};

fn analyze_lines(lines: &[&str]) -> (Sudoers, Vec<Error>) {
    let mut text = String::new();
    for l in lines {
        text.push_str(l);
        text.push('\n');
    }
    analyze(&text.into_bytes())
}

#[test]
fn digest_spec() {
    let (s, errs) = analyze_lines(&[
        "user ALL = NOPASSWD: sha224: c12053ca894181bc137b940b06b2e2459e9aa7b46d2d317777f34236 /bin/ls",
    ]);
    assert!(errs.is_empty());
    let digest = s.rules[0].commands[0].digest.clone().unwrap();
    assert_eq!(
        digest.bytes,
        [
            0xc1, 0x20, 0x53, 0xca, 0x89, 0x41, 0x81, 0xbc, 0x13, 0x7b, 0x94, 0x0b, 0x06, 0xb2,
            0xe2, 0x45, 0x9e, 0x9a, 0xa7, 0xb4, 0x6d, 0x2d, 0x31, 0x77, 0x77, 0xf3, 0x42, 0x36,
        ]
    )
}

#[test]
#[should_panic]
fn digest_spec_fail1() {
    // the hash length is incorrect
    let (_, errs) = analyze_lines(&[
        "user ALL = NOPASSWD: sha224: c12053ca894181bc137b940b06b2e2459e9aa7b46d2d317777f342 /bin/ls",
    ]);
    if !errs.is_empty() {
        panic!("hash rejected");
    }
}

#[test]
#[should_panic]
fn digest_spec_fail2() {
    // the hash length has an odd length
    let (_, errs) = analyze_lines(&[
        "user ALL = NOPASSWD: sha224: c12053ca894181bc137b940b06b2e2459e9aa7b46d2d317777f3421 /bin/ls",
    ]);
    if !errs.is_empty() {
        panic!("hash rejected");
    }
}

#[test]
#[should_panic]
fn digest_spec_fail3() {
    // the hash length has an invalid char
    let (_, errs) = analyze_lines(&[
        "user ALL = NOPASSWD: sha224: c12053ca894181bc137b940b06b2e2459e9aa7b46d2d317777g34236 /bin/ls",
    ]);
    if !errs.is_empty() {
        panic!("hash rejected");
    }
}

#[test]
fn digest_lengths() {
    // every supported algorithm accepts exactly its own byte count
    let cases: [(&str, usize, DigestAlg); 4] = [
        ("sha224", 28, DigestAlg::Sha224),
        ("sha256", 32, DigestAlg::Sha256),
        ("sha384", 48, DigestAlg::Sha384),
        ("sha512", 64, DigestAlg::Sha512),
    ];
    for (kw, len, alg) in cases {
        let hex_ok: String = "ab".repeat(len);
        let line_ok = format!("user ALL = {}: {} /bin/ls", kw, hex_ok);
        let (s, errs) = analyze_lines(&[&line_ok]);
        assert!(errs.is_empty());
        let d = s.rules[0].commands[0].digest.clone().unwrap();
        assert_eq!(d.alg, alg);
        assert_eq!(d.bytes.len(), len);
        assert!(d.bytes.iter().all(|&b| b == 0xab));

        let hex_short: String = "ab".repeat(len - 1);
        let line_short = format!("user ALL = {}: {} /bin/ls", kw, hex_short);
        let (s2, errs2) = analyze_lines(&[&line_short]);
        assert!(!errs2.is_empty());
        assert!(s2.rules.is_empty());
    }
}

#[test]
fn digest_case_insensitive_keyword() {
    let hex: String = "cd".repeat(32);
    let line = format!("user ALL = SHA256: {} /bin/ls", hex);
    let (s, errs) = analyze_lines(&[&line]);
    assert!(errs.is_empty());
    let d = s.rules[0].commands[0].digest.clone().unwrap();
    assert_eq!(d.alg, DigestAlg::Sha256);
}
