use fumofetch::layout::{compose_columns, logo_lines, visible_length};

#[test]
fn visible_width_skips_escapes() {
    assert_eq!(visible_length("\x1b[1;32mOS:\x1b[0m"), 3);
    assert_eq!(visible_length("plain"), 5);
    assert_eq!(visible_length(""), 0);
    assert_eq!(visible_length("\x1b[1;32mab"), 2);
    assert_eq!(visible_length("ab\x1b[1;32"), 2);
}

#[test]
fn two_columns_pad_the_logo() {
    let logo = vec!["\x1b[31mabcde\x1b[0m".to_string(), "fgh".to_string()];
    let info = vec!["one".to_string(), "two".to_string(), "three".to_string()];
    let rows = compose_columns(&logo, &info);
    assert_eq!(rows.len(), 3);
    assert_eq!(rows[0], "\x1b[31mabcde\x1b[0m    one");
    assert_eq!(rows[1], "fgh      two");
    assert_eq!(rows[2], format!("{}three", " ".repeat(9)));
}

#[test]
fn two_columns_longer_logo() {
    let logo = vec!["ab".to_string(), "c".to_string(), "".to_string()];
    let info = vec!["x".to_string()];
    let rows = compose_columns(&logo, &info);
    assert_eq!(rows, vec!["ab    x".to_string(), "c     ".to_string(), "      ".to_string()]);
}

#[test]
fn two_columns_empty() {
    assert!(compose_columns(&Vec::new(), &Vec::new()).is_empty());
}

#[test]
fn logo_file_lines() {
    assert_eq!(logo_lines("a\nb\n"), vec!["a".to_string(), "b".to_string()]);
    assert_eq!(logo_lines("a\n\nb"), vec!["a".to_string(), "".to_string(), "b".to_string()]);
    assert_eq!(logo_lines("a\r\n"), vec!["a\r".to_string()]);
    assert!(logo_lines("").is_empty());
}
