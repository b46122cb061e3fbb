use kuehlmak::parse::{layout_from_str, layout_to_str, layout_to_filename, LayoutError};
use kuehlmak::layout::{mirror_key, mirror_layout};
use kuehlmak::db::{db_update, count_popularity};
use kuehlmak::constraints::find_char_indexes_in_layout;
use kuehlmak::alphabet::expand_alphabet;

static QWERTY: &str = "q  w  e  r  t  y  u  i  o  p\n   a  s  d  f  g  h  j  k  l ;:\n   z  x  c  v  b  n  m ,< .> /?";

static DVORAK: &str = "'\" ,< .> p y f g c r l\n a o e u i d h t n s\n ;: q j k x b m w v z";

#[test]
fn parse_qwerty_auto_case() {
    let l = layout_from_str(QWERTY).unwrap();
    assert_eq!(l.keys.len(), 30);
    assert_eq!(l.keys[0], ('q', 'Q'));
    assert_eq!(l.keys[9], ('p', 'P'));
    assert_eq!(l.keys[19], (';', ':'));
    assert_eq!(l.keys[27], (',', '<'));
    assert_eq!(l.keys[29], ('/', '?'));
}

#[test]
fn parse_dvorak() {
    let l = layout_from_str(DVORAK).unwrap();
    assert_eq!(l.keys[0], ('\'', '"'));
    assert_eq!(l.keys[2], ('.', '>'));
    assert_eq!(l.keys[10], ('a', 'A'));
    assert_eq!(l.keys[20], (';', ':'));
}

#[test]
fn roundtrip_qwerty() {
    let l = layout_from_str(QWERTY).unwrap();
    let text = layout_to_str(&l);
    let l2 = layout_from_str(&text).unwrap();
    assert_eq!(l2, l);
}

#[test]
fn roundtrip_dvorak() {
    let l = layout_from_str(DVORAK).unwrap();
    let text = layout_to_str(&l);
    let l2 = layout_from_str(&text).unwrap();
    assert_eq!(l2, l);
}

#[test]
fn to_str_format() {
    let l = layout_from_str(QWERTY).unwrap();
    let text = layout_to_str(&l);
    let lines: Vec<&str> = text.lines().collect();
    assert_eq!(lines.len(), 3);
    assert_eq!(lines[0], "  q  w  e  r  t  y  u  i  o  p");
    assert_eq!(lines[1], "  a  s  d  f  g  h  j  k  l ;:");
    assert_eq!(lines[2], "  z  x  c  v  b  n  m ,< .> /?");
}

#[test]
fn error_too_many_keys() {
    let text = "q w e r t y u i o p x\na s d f g h j k l ;:\nz x c v b n m ,< .> /?";
    match layout_from_str(text) {
        Err(LayoutError::TooManyKeys { row }) => assert_eq!(row, 0),
        other => panic!("unexpected: {:?}", other),
    }
}

#[test]
fn error_missing_keys() {
    let text = "q w e r t y u i o p\na s d f\nz x c v b n m ,< .> /?";
    match layout_from_str(text) {
        Err(LayoutError::MissingKeys { row, found }) => {
            assert_eq!(row, 1);
            assert_eq!(found, 4);
        },
        other => panic!("unexpected: {:?}", other),
    }
}

#[test]
fn error_missing_rows() {
    let text = "q w e r t y u i o p\na s d f g h j k l ;:";
    match layout_from_str(text) {
        Err(LayoutError::MissingRows { found }) => assert_eq!(found, 2),
        other => panic!("unexpected: {:?}", other),
    }
}

#[test]
fn error_too_many_chars() {
    let text = "qXY w e r t y u i o p\na s d f g h j k l ;:\nz x c v b n m ,< .> /?";
    match layout_from_str(text) {
        Err(LayoutError::TooManyChars { row, key }) => {
            assert_eq!(row, 0);
            assert_eq!(key, 0);
        },
        other => panic!("unexpected: {:?}", other),
    }
}

#[test]
fn error_case_conversion() {
    let text = "1 w e r t y u i o p\na s d f g h j k l ;:\nz x c v b n m ,< .> /?";
    match layout_from_str(text) {
        Err(LayoutError::CaseConversionFailed { glyph, row, key }) => {
            assert_eq!(glyph, '1');
            assert_eq!(row, 0);
            assert_eq!(key, 0);
        },
        other => panic!("unexpected: {:?}", other),
    }
}

#[test]
fn error_duplicate_symbols() {
    let text = "q q e r t y u i o p\na s d f g h j k l ;:\nz x c v b n m ,< .> /?";
    match layout_from_str(text) {
        Err(LayoutError::DuplicateSymbols { dups }) => {
            assert!(dups.contains(&'q'));
            assert!(dups.contains(&'Q'));
        },
        other => panic!("unexpected: {:?}", other),
    }
}

#[test]
fn filename_substitution() {
    let l = layout_from_str(QWERTY).unwrap();
    let name = layout_to_filename(&l);
    assert_eq!(name, "qwertyuiop_asdfghjklJ_zxcvbnmQOZ.kbl");
    for c in name.chars() {
        assert!(c.is_ascii_alphanumeric() || c == '_' || c == '.');
    }
}

#[test]
fn mirror_key_involution() {
    for k in 0u8..30 {
        let m = mirror_key(k);
        assert!(m < 30);
        assert_eq!(mirror_key(m), k);
        assert_eq!(m / 10, k / 10);
        assert_eq!((m % 10) as u32 + (k % 10) as u32, 9);
    }
}

#[test]
fn mirror_layout_reverses_rows() {
    let l = layout_from_str(QWERTY).unwrap();
    let m = mirror_layout(&l);
    assert_eq!(m.keys[0], ('p', 'P'));
    assert_eq!(m.keys[9], ('q', 'Q'));
    assert_eq!(m.keys[10], (';', ':'));
    let back = mirror_layout(&m);
    assert_eq!(back, l);
}

#[test]
fn db_dedup_two_records() {
    let entry = "layout text\nscores here\n";
    let first = db_update(None, entry);
    assert!(first.ends_with("\n#"));
    let second = db_update(Some(&first), entry);
    assert_eq!(second.lines().last().unwrap(), "##");
    assert_eq!(count_popularity(&second), 2);
}

#[test]
fn popularity_counts_only_pure_hash_lines() {
    assert_eq!(count_popularity("abc\n###"), 3);
    assert_eq!(count_popularity("abc\n##x"), 0);
    assert_eq!(count_popularity(""), 0);
    assert_eq!(count_popularity("abc"), 0);
}

#[test]
fn find_forced_key_indexes() {
    let l = layout_from_str(QWERTY).unwrap();
    let v = find_char_indexes_in_layout(&l, "eh").unwrap();
    assert_eq!(v, vec![('e', 2), ('h', 15)]);
    assert!(find_char_indexes_in_layout(&l, "é").is_none());
}

#[test]
fn alphabet_ranges() {
    let v = expand_alphabet("a-e");
    assert_eq!(v, vec!['a', 'b', 'c', 'd', 'e']);
    let v = expand_alphabet("-a");
    assert_eq!(v, vec!['-', 'a']);
    let v = expand_alphabet("e-a");
    assert_eq!(v, vec!['e', 'a', 'b', 'c', 'd']);
    let v = expand_alphabet("xa-c;");
    assert_eq!(v, vec!['x', 'a', 'b', 'c', ';']);
}
