use vinter::snapshot::{
    file_content, list_xattrs, order_bytes, typeflag, wants_content, wants_target, xattr_value,
    FileAttrs, FileContent, FileKind, Order, Snapshot, Stat, COMPR_THRESHOLD,
};
use vinter::summary::{compr_str, push_iter, push_str};
use vinter::text::{latin1_text, push_decimal};

#[test]
fn decimal_numbers() {
    let mut out = String::from("n=");
    push_decimal(&mut out, 0);
    out.push(',');
    push_decimal(&mut out, 7);
    out.push(',');
    push_decimal(&mut out, 120);
    out.push(',');
    push_decimal(&mut out, u64::MAX);
    assert_eq!(out, "n=0,7,120,18446744073709551615");
}

#[test]
fn bytes_become_code_points() {
    assert_eq!(latin1_text(&[]), "");
    assert_eq!(latin1_text(b"abc"), "abc");
    assert_eq!(latin1_text(&[0x41, 0xe9, 0xff, 0x00]), "A\u{e9}\u{ff}\u{0}");
}

#[test]
fn push_iter_writes_count_and_character() {
    let mut out = String::from("x");
    push_iter('a', 3, &mut out);
    assert_eq!(out, "x3/'a'");
    push_iter('\'', 2147483647, &mut out);
    assert_eq!(out, "x3/'a'2147483647/'''");
}

#[test]
fn push_iter_writes_negative_counts_with_a_sign() {
    let mut out = String::new();
    push_iter('b', -5, &mut out);
    push_iter('c', i32::MIN, &mut out);
    push_iter('d', 0, &mut out);
    assert_eq!(out, "-5/'b'-2147483648/'c'0/'d'");
}

#[test]
fn push_str_writes_length_and_text() {
    let mut out = String::from("x");
    push_str(&String::from("hello"), &mut out);
    assert_eq!(out, "x#5'hello'");
}

#[test]
fn push_str_counts_utf8_bytes() {
    let mut out = String::new();
    push_str(&String::from("\u{e9}A"), &mut out);
    assert_eq!(out, "#3'\u{e9}A'");
}

#[test]
fn push_str_skips_empty_text() {
    let mut out = String::from("kept");
    push_str(&String::new(), &mut out);
    assert_eq!(out, "kept");
}

#[test]
fn summary_of_nothing_is_empty() {
    assert_eq!(compr_str(&[]), "");
}

#[test]
fn summary_of_a_run() {
    assert_eq!(compr_str(b"aaa"), "3/'a'");
    assert_eq!(compr_str(&[b'x'; 130]), "130/'x'");
}

#[test]
fn summary_of_a_literal() {
    assert_eq!(compr_str(b"a"), "#1'a'");
    assert_eq!(compr_str(b"abc"), "#3'abc'");
    assert_eq!(compr_str(b"abab"), "#4'abab'");
}

#[test]
fn summary_of_mixed_content() {
    assert_eq!(compr_str(b"abbbc"), "#1'a'3/'b'#1'c'");
    assert_eq!(compr_str(b"aab"), "2/'a'#1'b'");
    assert_eq!(compr_str(b"abb"), "#1'a'2/'b'");
    assert_eq!(compr_str(b"aabbcc"), "2/'a'2/'b'2/'c'");
    assert_eq!(compr_str(b"xyzzzzyx"), "#2'xy'4/'z'#2'yx'");
}

#[test]
fn summary_of_leading_zero_bytes() {
    assert_eq!(compr_str(&[0, 0, 0]), "3/'\u{0}'");
    assert_eq!(compr_str(&[0, b'a']), "1/'\u{0}'#1'a'");
    assert_eq!(compr_str(&[b'a', 0]), "#2'a\u{0}'");
    assert_eq!(compr_str(&[b'a', 0, 0]), "#1'a'2/'\u{0}'");
}

#[test]
fn summary_counts_high_bytes_twice_in_literals() {
    assert_eq!(compr_str(&[0xe9, 0x41]), "#3'\u{e9}A'");
    assert_eq!(compr_str(&[0xff, 0xff, 0xff]), "3/'\u{ff}'");
}

#[test]
fn type_flags() {
    assert_eq!(typeflag(FileKind::File), "F");
    assert_eq!(typeflag(FileKind::Dir), "D");
    assert_eq!(typeflag(FileKind::Symlink), "SL");
}

#[test]
fn content_and_target_are_recorded_on_request_only() {
    assert!(wants_content(true, FileKind::File));
    assert!(!wants_content(false, FileKind::File));
    assert!(!wants_content(true, FileKind::Dir));
    assert!(!wants_content(true, FileKind::Symlink));
    assert!(wants_target(true, FileKind::Symlink));
    assert!(!wants_target(false, FileKind::Symlink));
    assert!(!wants_target(true, FileKind::File));
}

#[test]
fn large_compressible_file_is_summarized() {
    assert_eq!(COMPR_THRESHOLD, 128);
    let data = [b'x'; 200];
    assert_eq!(
        file_content(&data, 200),
        FileContent { content: None, content_compr: Some(String::from("200/'x'")) }
    );
    let data = [b'x'; 128];
    assert_eq!(
        file_content(&data, 128),
        FileContent { content: None, content_compr: Some(String::from("128/'x'")) }
    );
}

#[test]
fn small_file_is_recorded_whole() {
    let data = [b'x'; 127];
    assert_eq!(
        file_content(&data, 127),
        FileContent { content: Some("x".repeat(127)), content_compr: None }
    );
    assert_eq!(
        file_content(&[], 0),
        FileContent { content: Some(String::new()), content_compr: None }
    );
}

#[test]
fn large_file_that_does_not_shrink_is_recorded_whole() {
    let data: Vec<u8> = (1..=128).collect();
    assert_eq!(compr_str(&data).len(), 1 + 3 + 1 + 128 + 1 + 1);
    let recorded = file_content(&data, 128);
    assert_eq!(recorded.content, Some(latin1_text(&data)));
    assert_eq!(recorded.content_compr, None);
}

#[test]
fn xattr_values_are_shown_as_text() {
    assert_eq!(xattr_value(Some(b"user")), "user");
    assert_eq!(xattr_value(Some(&[0xe9])), "\u{e9}");
    assert_eq!(xattr_value(Some(&[])), "");
    assert_eq!(xattr_value(None), "xattr could not be extracted!");
}

#[test]
fn xattrs_are_listed_in_order() {
    let raw = vec![
        (String::from("user.a"), Some(vec![b'1', b'2'])),
        (String::from("user.b"), None),
        (String::from("security.c"), Some(vec![])),
    ];
    assert_eq!(
        list_xattrs(raw),
        vec![
            (String::from("user.a"), String::from("12")),
            (String::from("user.b"), String::from("xattr could not be extracted!")),
            (String::from("security.c"), String::new()),
        ]
    );
    assert!(list_xattrs(Vec::new()).is_empty());
}

fn attrs(kind: FileKind, size: u64) -> FileAttrs {
    FileAttrs {
        typeflag: typeflag(kind),
        content: None,
        content_compr: None,
        target: None,
        xattrs: Vec::new(),
        stat: Stat {
            st_ino: 1,
            st_mode: 0o644,
            st_nlink: 1,
            st_uid: 0,
            st_gid: 0,
            st_size: size,
            st_blocks: 0,
            st_atim_sec: 0,
            st_atim_nsec: 0,
            st_mtim_sec: 0,
            st_mtim_nsec: 0,
            st_ctim_sec: 0,
            st_ctim_nsec: 0,
        },
    }
}

fn paths(snapshot: &Snapshot) -> Vec<String> {
    snapshot.entries().iter().map(|e| e.0.clone()).collect()
}

#[test]
fn byte_strings_are_ordered_like_paths() {
    assert_eq!(order_bytes(b"", b""), Order::Same);
    assert_eq!(order_bytes(b"", b"a"), Order::Before);
    assert_eq!(order_bytes(b"a", b""), Order::After);
    assert_eq!(order_bytes(b"/a", b"/a"), Order::Same);
    assert_eq!(order_bytes(b"/a", b"/a/b"), Order::Before);
    assert_eq!(order_bytes(b"/a/b", b"/a"), Order::After);
    assert_eq!(order_bytes(b"/a/b", b"/ab"), Order::Before);
    assert_eq!(order_bytes(b"/b", b"/a/z"), Order::After);
    assert_eq!(order_bytes(&[0xff], &[0x7f, 0xff]), Order::After);
}

#[test]
fn snapshot_does_not_depend_on_insertion_order() {
    let names = ["/mnt", "/mnt/a", "/mnt/a/x", "/mnt/ab", "/mnt/b", "/mnt/\u{e9}"];
    let mut forward = Snapshot::new();
    for (i, name) in names.iter().enumerate() {
        forward.insert(String::from(*name), attrs(FileKind::File, i as u64));
    }
    let mut backward = Snapshot::new();
    for (i, name) in names.iter().enumerate().rev() {
        backward.insert(String::from(*name), attrs(FileKind::File, i as u64));
    }
    let mut mixed = Snapshot::new();
    for i in [3usize, 0, 5, 1, 4, 2] {
        mixed.insert(String::from(names[i]), attrs(FileKind::File, i as u64));
    }
    assert_eq!(forward, backward);
    assert_eq!(forward, mixed);
    assert_eq!(forward.len(), 6);
    let mut sorted: Vec<String> = names.iter().map(|n| String::from(*n)).collect();
    sorted.sort();
    assert_eq!(paths(&forward), sorted);
    assert_eq!(paths(&forward)[..3], ["/mnt", "/mnt/a", "/mnt/a/x"]);
}

#[test]
fn snapshot_keeps_the_last_entry_for_a_path() {
    let mut snapshot = Snapshot::new();
    assert_eq!(snapshot.len(), 0);
    assert!(snapshot.entries().is_empty());
    snapshot.insert(String::from("/b"), attrs(FileKind::File, 1));
    snapshot.insert(String::from("/a"), attrs(FileKind::Dir, 2));
    snapshot.insert(String::from("/b"), attrs(FileKind::Symlink, 3));
    assert_eq!(snapshot.len(), 2);
    assert_eq!(
        snapshot.entries(),
        &[
            (String::from("/a"), attrs(FileKind::Dir, 2)),
            (String::from("/b"), attrs(FileKind::Symlink, 3)),
        ]
    );
}
