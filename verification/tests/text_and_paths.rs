use kova::paths::{
    dropped_text, flash_label, flash_label_parts, paste_image_path, paste_image_text, paste_text,
    shell_quote,
};
use kova::text::{
    char_count, insert_char, is_blank, is_control, is_white_space, lower_text, push_decimal,
    remove_char, same_text, text_in, trim,
};

#[test]
fn a_dropped_path_is_quoted_only_when_it_needs_to_be() {
    assert_eq!(shell_quote("/Users/rob/notes.md"), "/Users/rob/notes.md");
    assert_eq!(shell_quote("/Users/rob/my file.md"), "'/Users/rob/my file.md'");
    assert_eq!(shell_quote("/tmp/it's here"), "'/tmp/it'\\''s here'");
    assert_eq!(shell_quote(""), "''");
}

#[test]
fn flash_label_splits_a_cwd_into_directory_and_path_above() {
    let home = "/Users/mick";
    assert_eq!(
        flash_label_parts("/Users/mick/projects/perso/kova", home),
        ("kova".to_string(), "~/projects/perso".to_string())
    );
    // Home itself, and the root, are their own name with nothing above.
    assert_eq!(flash_label_parts(home, home), ("~".to_string(), String::new()));
    assert_eq!(flash_label_parts("/", home), ("/".to_string(), String::new()));
    // A top-level directory keeps the root as its path line.
    assert_eq!(flash_label_parts("/tmp", home), ("tmp".to_string(), "/".to_string()));
    // A trailing slash must not produce an empty name.
    assert_eq!(
        flash_label_parts("/Users/mick/dev/", home),
        ("dev".to_string(), "~".to_string())
    );
    // A path that merely starts with the same bytes as $HOME is not under it.
    assert_eq!(
        flash_label_parts("/Users/mickey/dev", home),
        ("dev".to_string(), "/Users/mickey".to_string())
    );
    let l = flash_label("/tmp/x", home);
    assert_eq!((l.name.as_str(), l.parent.as_str()), ("x", "/tmp"));
}

/// What a shell makes of one word.
fn read_word(s: &str) -> String {
    let mut out = String::new();
    let mut quoted = false;
    let mut chars = s.chars();
    while let Some(c) = chars.next() {
        if c == '\'' {
            quoted = !quoted;
        } else if c == '\\' && !quoted {
            out.push(chars.next().unwrap());
        } else {
            out.push(c);
        }
    }
    out
}

#[test]
fn a_shell_reads_a_quoted_path_back() {
    for p in ["", "plain", "a b", "it's", "''", "a\\b $HOME", "/tmp/\u{e9}"] {
        assert_eq!(read_word(&shell_quote(p)), p);
    }
}

#[test]
fn several_dropped_paths_are_typed_with_spaces() {
    let paths = vec!["/a".to_string(), "/b c".to_string()];
    assert_eq!(dropped_text(&paths), "/a '/b c' ");
    assert_eq!(dropped_text(&vec![]), "");
}

#[test]
fn a_bracketed_paste_cannot_close_itself() {
    assert_eq!(paste_text("hello", false), "hello");
    assert_eq!(paste_text("hello", true), "\x1b[200~hello\x1b[201~");
    assert_eq!(paste_text("a\x1b[201~b", false), "a\x1b[201~b");
    assert_eq!(paste_text("a\x1b[201~b", true), "\x1b[200~ab\x1b[201~");
    // Taking one terminator out must not form another from its halves.
    assert_eq!(
        paste_text("x\x1b[2\x1b[201~01~y", true),
        "\x1b[200~xy\x1b[201~"
    );
}

#[test]
fn a_pasted_image_is_pasted_as_its_path() {
    assert_eq!(paste_image_path(1234), "/tmp/kova-paste-1234.png");
    assert_eq!(paste_image_text("/tmp/x.png", false), "/tmp/x.png");
    assert_eq!(paste_image_text("/tmp/x.png", true), "\x1b[200~/tmp/x.png\x1b[201~");
}

#[test]
fn text_helpers_agree_with_the_standard_library() {
    for s in ["", " ", "a", " a b\t", "\u{a0}x\u{3000}", "\u{e9}t\u{e9}", "\u{85}\u{2028}y "] {
        assert_eq!(trim(s), s.trim());
        assert_eq!(is_blank(s), s.trim().is_empty());
        assert_eq!(char_count(s), s.chars().count());
        assert_eq!(lower_text(s), s.to_ascii_lowercase());
    }
    for c in (0u32..0x3100).filter_map(char::from_u32) {
        assert_eq!(is_white_space(c), c.is_whitespace());
        assert_eq!(is_control(c), c.is_control());
    }
    for n in [0u64, 7, 10, 99, 100, 12345, u64::MAX] {
        let mut s = String::new();
        push_decimal(&mut s, n);
        assert_eq!(s, n.to_string());
    }
    assert!(same_text("ab", "ab") && !same_text("ab", "ac"));
    assert!(text_in("hello", "ell") && text_in("hello", "") && !text_in("hello", "lle"));
}

#[test]
fn chars_are_put_in_and_taken_out_by_place() {
    let mut s = "a\u{e9}c".to_string();
    insert_char(&mut s, 1, '\u{2713}');
    assert_eq!(s, "a\u{2713}\u{e9}c");
    remove_char(&mut s, 2);
    assert_eq!(s, "a\u{2713}c");
}
