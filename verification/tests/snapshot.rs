use exarare::snapshot::{glob_set, PatternError, is_text_bytes, small_file, streamed_file, Blobs, Content, Entry, Rules, MAX_BLOB_BYTES};

#[test]
fn mask_patterns_cover_system_paths() {
    let rules = Rules::defaults().unwrap();
    for path in [
        "/etc/shadow",
        "/etc/gshadow",
        "/etc/pki/tls/private/server.crt",
        "/etc/ssl/private/site.crt",
        "/etc/ssh/ssh_host_rsa_key",
        "/root/.ssh/id_ed25519",
    ] {
        assert!(rules.is_masked(path), "{path} should be masked");
    }
    for path in ["/etc/hosts", "/etc/nginx/nginx.conf", "/etc/passwd"] {
        assert!(!rules.is_masked(path), "{path} should not be masked");
    }
    assert!(!rules.is_masked("/private/var/folders/x/T/tmp1/a.conf"));
}

#[test]
fn skips_files_that_change_on_their_own() {
    let rules = Rules::defaults().unwrap();
    assert!(rules.is_excluded("/etc/ld.so.cache"));
    assert!(rules.is_excluded("/etc/app/stale.lock"));
    assert!(rules.is_excluded("/etc/nginx/nginx.conf~"));
    assert!(!rules.is_excluded("/etc/nginx/nginx.conf"));
}

fn entry_of(content: Content) -> Entry {
    Entry { path: "/etc/x".to_string(), content, mode: 0o644, uid: 0, gid: 0 }
}

#[test]
fn keeps_the_content_of_small_text_files_only() {
    let text = entry_of(small_file(6, b"alpha\n", false));
    assert!(text.has_blob());
    assert_eq!(text.hash().unwrap(), blake3_hex(b"alpha\n"));
    let binary = entry_of(small_file(3, &[0, 1, 2], false));
    assert!(!binary.has_blob(), "binary content is not stored");
    let secret = entry_of(small_file(7, b"secret\n", true));
    assert!(secret.is_masked());
    assert!(!secret.has_blob(), "a secret is never stored");
    let large = entry_of(small_file(MAX_BLOB_BYTES + 1, b"x", false));
    assert!(!large.has_blob());
    // A multi-byte character cut at the probe's end is still text only if
    // the probe itself is valid UTF-8.
    let mut long = vec![b'a'; 8191];
    long.extend_from_slice("é".as_bytes());
    assert!(!entry_of(small_file(long.len() as u64, &long, false)).has_blob());
}

fn blake3_hex(bytes: &[u8]) -> String {
    blake3::hash(bytes).to_hex().to_string()
}

#[test]
fn reads_a_blob_back() {
    let mut blobs = Blobs::new();
    blobs.insert("h1".to_string(), "alpha\n".to_string());
    let entry = Entry {
        path: "/etc/a.conf".to_string(),
        content: Content::File { size: 6, hash: "h1".to_string(), blob: true, masked: false },
        mode: 0o644,
        uid: 0,
        gid: 0,
    };
    assert_eq!(exarare::snapshot::blob_text(&blobs, &entry).as_deref(), Some("alpha\n"));
    let link = Entry { content: Content::Symlink { target: "a.conf".to_string() }, ..entry.clone() };
    assert!(exarare::snapshot::blob_text(&blobs, &link).is_none());
    assert!(link.is_symlink());
}

#[test]
fn text_is_utf8_without_nul_bytes() {
    assert!(is_text_bytes("héllo wörld\n".as_bytes()));
    assert!(is_text_bytes(b""));
    assert!(!is_text_bytes(&[0xc3, 0x28]));
    assert!(!is_text_bytes(&[0xff, b'a']));
    assert!(!is_text_bytes(b"a\0b"));
    // Only the head is looked at: a NUL past it does not make a file binary.
    let mut late = vec![b'a'; 8192];
    late.push(0);
    assert!(is_text_bytes(&late));
}

#[test]
fn large_files_keep_only_their_hash() {
    let content = streamed_file(MAX_BLOB_BYTES + 1, "abc".into(), false);
    assert_eq!(
        content,
        Content::File { size: MAX_BLOB_BYTES + 1, hash: "abc".into(), blob: false, masked: false }
    );
}

#[test]
fn an_entry_keeps_the_permission_bits_only() {
    // A regular file (0o100000) with mode 4755.
    let e = exarare::snapshot::entry_of("/usr/bin/tool".into(), streamed_file(1, "h".into(), false), 0o104755, 0, 10);
    assert_eq!(e.mode, 0o4755);
    assert_eq!(e.gid, 10);
    // A symlink (0o120000) with mode 777.
    let link = exarare::snapshot::entry_of("/etc/alt".into(), Content::Symlink { target: "/opt".into() }, 0o120777, 0, 0);
    assert_eq!(link.mode, 0o777);
    assert!(link.is_symlink());
}

#[test]
fn names_the_pattern_that_globset_refuses() {
    let set = glob_set(&["**/*.conf", "/etc/hosts"]).unwrap();
    assert!(set.is_match("/etc/nginx/nginx.conf"));
    assert!(!set.is_match("/etc/passwd"));
    match glob_set(&["**/*.conf", "a[", "b{"]) {
        Err(e) => {
            assert_eq!(e, PatternError::Glob { pattern: "a[".to_string() });
            assert_eq!(e.message(), "bad pattern a[");
        }
        Ok(_) => panic!("an unclosed class is refused"),
    }
}

#[test]
fn reports_a_set_too_large_to_build() {
    let huge = "?".repeat(2_000_000);
    match glob_set(&[huge.as_str()]) {
        Err(PatternError::Build { message }) => assert!(!message.is_empty()),
        Err(e) => panic!("the pattern itself is valid: {e:?}"),
        Ok(_) => panic!("the set is over globset's size limit"),
    }
}
