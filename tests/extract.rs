use replibyte::extract::MAX_UNPRODUCTIVE_READS;
use replibyte::text::{chars_of, decode_text, is_space, split_statements};
use replibyte::{list_queries_from_dump_reader, DumpFileError, StatementExtractor};

fn extract(dump: &str, marker: &str) -> Vec<String> {
    match list_queries_from_dump_reader(dump.as_bytes(), marker) {
        Ok(v) => v,
        Err(_) => panic!("extraction failed"),
    }
}

#[test]
fn single_insert_statement() {
    assert_eq!(extract("INSERT INTO t VALUES (1);\n\n", "--"), vec!["INSERT INTO t VALUES (1);"]);
}

#[test]
fn comment_then_statement() {
    assert_eq!(extract("-- note\nSELECT 1;\n\n", "--"), vec!["-- note\n", "SELECT 1;"]);
}

#[test]
fn two_statements_on_one_line() {
    assert_eq!(extract("A;B;\n\n", "--"), vec!["A;", "B;"]);
}

#[test]
fn quoted_separator_is_not_a_split_point() {
    assert_eq!(extract("SELECT ';';\n\n", "--"), vec!["SELECT ';';"]);
}

#[test]
fn statement_over_two_lines() {
    assert_eq!(
        extract("INSERT INTO t\nVALUES (1);\n", "--"),
        vec!["INSERT INTO t\nVALUES (1);"]
    );
}

#[test]
fn fragments_are_trimmed_and_terminated() {
    assert_eq!(extract("  A ;  B;\n", "--"), vec!["A;", "B;"]);
    assert_eq!(extract("\u{a0}A\u{3000};\n", "--"), vec!["A;"]);
}

#[test]
fn text_without_separator_is_emitted_unchanged() {
    assert_eq!(extract("SELECT 1\n\n", "--"), vec!["SELECT 1\n\n"]);
}

#[test]
fn partial_marker_is_not_a_comment() {
    assert_eq!(extract("- x;\n", "--"), vec!["- x;"]);
}

#[test]
fn comment_never_joins_a_statement() {
    assert_eq!(
        extract("SELECT\n-- inside\n1;\n\n", "--"),
        vec!["-- inside\n", "SELECT\n1;"]
    );
}

#[test]
fn consecutive_statement_lines() {
    assert_eq!(extract("SELECT 1;\nSELECT 22;\n\n", "--"), vec!["SELECT 1;", "SELECT 22;"]);
}

#[test]
fn empty_dump_ends_without_emissions() {
    assert_eq!(extract("", "--"), Vec::<String>::new());
}

#[test]
fn invalid_statement_text_is_a_decode_error() {
    let dump: Vec<u8> = vec![0x41, 0xff, 0x3b, 0x0a];
    assert!(matches!(
        list_queries_from_dump_reader(&dump, "--"),
        Err(DumpFileError::DecodeError)
    ));
}

#[test]
fn invalid_comment_text_is_a_decode_error() {
    let dump: Vec<u8> = vec![0x2d, 0x2d, 0xc3, 0x0a];
    assert!(matches!(
        list_queries_from_dump_reader(&dump, "--"),
        Err(DumpFileError::DecodeError)
    ));
}

#[test]
fn unproductive_reads_end_extraction() {
    let mut ex = StatementExtractor::new("--");
    let first = ex.feed_line(b"A;\n");
    assert!(matches!(first, Ok(ref v) if v == &vec!["A;".to_string()]));
    let mut reads: u64 = 0;
    while !ex.is_finished() {
        match ex.feed_line(b"") {
            Ok(v) => assert!(v.is_empty()),
            Err(_) => panic!("blank read failed"),
        }
        reads += 1;
    }
    assert_eq!(reads, MAX_UNPRODUCTIVE_READS + 1);
    assert_eq!(reads, 50);
}

#[test]
fn productive_line_resets_the_count() {
    let mut ex = StatementExtractor::new("--");
    for _ in 0..49 {
        assert!(ex.feed_line(b"\n").is_ok());
    }
    assert!(!ex.is_finished());
    assert!(ex.feed_line(b"SELECT 1;\n").is_ok());
    for _ in 0..49 {
        assert!(ex.feed_line(b"\n").is_ok());
    }
    assert!(!ex.is_finished());
    assert!(ex.feed_line(b"").is_ok());
    assert!(ex.is_finished());
}

#[test]
fn split_statements_directly() {
    assert_eq!(split_statements("A;B;\n\n"), vec!["A;", "B;"]);
    assert_eq!(split_statements("x ;' y"), vec!["x ;' y"]);
    assert_eq!(split_statements("a;;b"), vec!["a;", "b;"]);
}

#[test]
fn decoding_and_characters() {
    assert_eq!(decode_text("é;".as_bytes()), Some("é;".to_string()));
    assert_eq!(decode_text(&[0xe9]), None);
    assert_eq!(chars_of("aé"), vec!['a', 'é']);
    assert!(is_space('\u{2003}'));
    assert!(!is_space('x'));
}

#[test]
fn bytes_after_fifty_blank_lines_are_never_read() {
    let mut dump = String::from("A;\n");
    for _ in 0..50 {
        dump.push('\n');
    }
    dump.push_str("B;\n");
    assert_eq!(extract(&dump, "--"), vec!["A;"]);
    let mut shorter = String::from("A;\n");
    for _ in 0..49 {
        shorter.push('\n');
    }
    shorter.push_str("B;\n");
    assert_eq!(extract(&shorter, "--"), vec!["A;", "B;"]);
}
