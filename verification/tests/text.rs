use afire::bytes::{find_bytes, read_chunks, split_lines, ChunkRead};
use afire::query::url_decode;
use afire::text::{
    chars_of, decimal_chars, number_of, same_chars, same_text_ignoring_case, split_chars, text_of,
    trim_chars, words_of,
};

fn cs(s: &str) -> Vec<char> {
    s.chars().collect()
}

#[test]
fn strings_and_characters() {
    assert_eq!(chars_of("a\u{e9}z"), vec!['a', '\u{e9}', 'z']);
    assert_eq!(text_of(&vec!['h', 'i']), "hi");
    assert_eq!(text_of(&vec![]), "");
    assert!(same_chars(&cs("abc"), &cs("abc")));
    assert!(!same_chars(&cs("abc"), &cs("abd")));
    assert!(!same_chars(&cs("abc"), &cs("ab")));
    assert!(same_text_ignoring_case("Content-TYPE", "content-type"));
    assert!(!same_text_ignoring_case("a_b", "a-b"));
    assert!(!same_text_ignoring_case("@", "`"));
}

#[test]
fn splitting() {
    assert_eq!(split_chars(&cs("a/b//c"), '/'), vec![cs("a"), cs("b"), cs(""), cs("c")]);
    assert_eq!(split_chars(&cs(""), '/'), vec![cs("")]);
    assert_eq!(split_chars(&cs("/"), '/'), vec![cs(""), cs("")]);
    assert_eq!(words_of(&cs("  GET   /x  HTTP/1.1 ")), vec![cs("GET"), cs("/x"), cs("HTTP/1.1")]);
    assert_eq!(words_of(&cs("   ")), Vec::<Vec<char>>::new());
    assert_eq!(trim_chars(&cs(" \t a b\t ")), cs("a b"));
    assert_eq!(trim_chars(&cs(" \t ")), cs(""));
    assert_eq!(trim_chars(&cs("\r x")), cs("\r x"));
}

#[test]
fn numbers() {
    assert_eq!(decimal_chars(0), cs("0"));
    assert_eq!(decimal_chars(7), cs("7"));
    assert_eq!(decimal_chars(1234567890), cs("1234567890"));
    assert_eq!(decimal_chars(u64::MAX), cs("18446744073709551615"));
    assert_eq!(number_of(&cs("0")), Some(0));
    assert_eq!(number_of(&cs("0042")), Some(42));
    assert_eq!(number_of(&cs("18446744073709551615")), Some(18446744073709551615));
    assert_eq!(number_of(&cs("18446744073709551616")), None);
    assert_eq!(number_of(&cs("")), None);
    assert_eq!(number_of(&cs("-1")), None);
    assert_eq!(number_of(&cs("1 ")), None);
}

#[test]
fn percent_decoding() {
    assert_eq!(url_decode(&cs("a+b%20c%2f%2F")), Some(cs("a b c//")));
    assert_eq!(url_decode(&cs("%e9")), Some(vec!['\u{e9}']));
    assert_eq!(url_decode(&cs("")), Some(cs("")));
    assert_eq!(url_decode(&cs("%")), None);
    assert_eq!(url_decode(&cs("%1")), None);
    assert_eq!(url_decode(&cs("%g1")), None);
    assert_eq!(url_decode(&cs("ok%")), None);
}

#[test]
fn bytes_and_lines() {
    let v = b"ab\r\ncd\r\n\r\nef".to_vec();
    assert_eq!(find_bytes(&v, 0, &b"\r\n".to_vec()), 2);
    assert_eq!(find_bytes(&v, 3, &b"\r\n".to_vec()), 6);
    assert_eq!(find_bytes(&v, 0, &b"\r\n\r\n".to_vec()), 6);
    assert_eq!(find_bytes(&v, 7, &b"\r\n\r\n".to_vec()), v.len());
    assert_eq!(
        split_lines(&v, 0, v.len()),
        vec![b"ab".to_vec(), b"cd".to_vec(), b"".to_vec(), b"ef".to_vec()]
    );
    assert_eq!(split_lines(&v, 0, 6), vec![b"ab".to_vec(), b"cd".to_vec()]);
    assert_eq!(split_lines(&v, 1, 1), vec![b"".to_vec()]);
}

#[test]
fn chunks() {
    match read_chunks(&b"xx4\r\nWiki\r\n5\r\npedia\r\n0\r\n\r\nrest".to_vec(), 2) {
        ChunkRead::Done(body, used) => {
            assert_eq!(body, b"Wikipedia".to_vec());
            assert_eq!(used, 24);
        }
        _ => panic!("not done"),
    }
    match read_chunks(&b"0\r\n\r\n".to_vec(), 0) {
        ChunkRead::Done(body, used) => {
            assert!(body.is_empty());
            assert_eq!(used, 5);
        }
        _ => panic!("not done"),
    }
    assert!(matches!(read_chunks(&b"1f\r\nabc".to_vec(), 0), ChunkRead::More));
    assert!(matches!(read_chunks(&b"".to_vec(), 0), ChunkRead::More));
    assert!(matches!(read_chunks(&b"ffffffffffffffffffffffff\r\nabc".to_vec(), 0), ChunkRead::More));
    assert!(matches!(read_chunks(&b"4;ext\r\nWiki\r\n0\r\n\r\n".to_vec(), 0), ChunkRead::Bad));
    assert!(matches!(read_chunks(&b"\r\nWiki".to_vec(), 0), ChunkRead::Bad));
    assert!(matches!(read_chunks(&b"1\r\nabc\r\n".to_vec(), 0), ChunkRead::Bad));
    assert!(matches!(read_chunks(&b"0\r\nab".to_vec(), 0), ChunkRead::Bad));
}
