use mail_reader::config::Config;
use mail_reader::mailbox::{extract_subjects, newest_first, page_of, subject_of, trim_blanks};

#[test]
fn page_past_the_end_is_empty() {
    let uids: Vec<u32> = (1..=10).collect();
    assert_eq!(page_of(&uids, 2), Vec::<u32>::new());
    assert_eq!(page_of(&uids, usize::MAX), Vec::<u32>::new());
    assert_eq!(page_of(&Vec::new(), 0), Vec::<u32>::new());
}

#[test]
fn pages_cut_runs_of_eight() {
    let uids: Vec<u32> = (1..=10).collect();
    assert_eq!(page_of(&uids, 0), (1..=8).collect::<Vec<u32>>());
    assert_eq!(page_of(&uids, 1), vec![9, 10]);
    let sixteen: Vec<u32> = (1..=16).collect();
    assert_eq!(page_of(&sixteen, 1), (9..=16).collect::<Vec<u32>>());
    assert_eq!(page_of(&sixteen, 2), Vec::<u32>::new());
}

#[test]
fn uids_are_ordered_newest_first() {
    assert_eq!(newest_first(vec![3, 10, 1, 7, 7]), vec![10, 7, 7, 3, 1]);
    assert_eq!(newest_first(Vec::new()), Vec::<u32>::new());
}

#[test]
fn subject_is_read_from_its_line() {
    let h = b"From: a@b.c\r\nSUBJECT:   Greetings  \r\nTo: d@e.f\r\n";
    assert_eq!(subject_of(h), Some(b"Greetings".to_vec()));
    assert_eq!(subject_of(b"subject:x"), Some(b"x".to_vec()));
    assert_eq!(subject_of(b"Subject:\r\n"), Some(Vec::new()));
    assert_eq!(subject_of("subject:a\u{a0}\r\n".as_bytes()), Some(b"a".to_vec()));
    assert_eq!(subject_of("Subject:\u{3000}Hi\u{2003}".as_bytes()), Some(b"Hi".to_vec()));
}

#[test]
fn subject_must_begin_a_line() {
    assert_eq!(subject_of(b"X-Subject: no\r\nFrom: a\r\n"), None);
    assert_eq!(subject_of(b"From: a\r\nX-Subject: no\r\nSubject: yes\r\n"), Some(b"yes".to_vec()));
    assert_eq!(subject_of(b"Subject: first\nSubject: second\n"), Some(b"first".to_vec()));
}

#[test]
fn no_subject_or_bad_utf8_gives_none() {
    assert_eq!(subject_of(b"From: a\r\n"), None);
    assert_eq!(subject_of(b""), None);
    assert_eq!(subject_of(b"Subject: \xff\r\n"), None);
}

#[test]
fn subjects_are_listed_per_block() {
    let blocks = vec![b"Subject: one\r\n".to_vec(), b"From: x\r\n".to_vec(), b"subject: three".to_vec()];
    assert_eq!(extract_subjects(&blocks), vec![Some(b"one".to_vec()), None, Some(b"three".to_vec())]);
}

#[test]
fn blanks_are_trimmed_at_both_ends() {
    assert_eq!(trim_blanks(b" \t a b \r\n"), b"a b".to_vec());
    assert_eq!(trim_blanks(b"   "), Vec::<u8>::new());
    assert_eq!(trim_blanks("\u{a0}\u{3000}x y\u{85}\u{2009}\u{202f}".as_bytes()), b"x y".to_vec());
    assert_eq!(trim_blanks("\u{1680}\u{205f}\u{2028}\u{2029}".as_bytes()), Vec::<u8>::new());
    assert_eq!(trim_blanks("\u{e9}\u{a0}".as_bytes()), "\u{e9}".as_bytes().to_vec());
    assert_eq!(trim_blanks("\u{200b}x".as_bytes()), "\u{200b}x".as_bytes().to_vec());
}

#[test]
fn config_holds_credentials() {
    let c = Config { username: "user".to_string(), password: "SECRET-REDACTED".to_string() };
    assert_eq!(c.username, "user");
    assert_eq!(c.password, "SECRET-REDACTED");
}

#[test]
fn trimming_agrees_with_str_trim_on_every_char() {
    for code in 0..=0x10FFFFu32 {
        if let Some(c) = char::from_u32(code) {
            let s = format!("{c}{c}a{c}b{c}");
            assert_eq!(trim_blanks(s.as_bytes()), s.trim().as_bytes().to_vec(), "U+{code:04X}");
        }
    }
}
