use tome::slug::{decode, encode, DecodeError};

#[test]
fn encode_keeps_unreserved_characters() {
    assert_eq!(encode("pureascii"), "pureascii");
    assert_eq!(encode("AZaz09-._~"), "AZaz09-._~");
    assert_eq!(encode("_"), "_");
    assert_eq!(encode("..."), "...");
    assert_eq!(encode(".a"), ".a");
}

#[test]
fn reserved_titles_get_the_mark() {
    assert_eq!(encode(""), "%5F");
    assert_eq!(encode("."), "%5F.");
    assert_eq!(encode(".."), "%5F..");
    assert_eq!(decode("%5F"), Ok(String::new()));
    assert_eq!(decode("%5F."), Ok(".".to_string()));
    assert_eq!(decode("%5F.."), Ok("..".to_string()));
}

#[test]
fn the_mark_counts_only_in_front_of_a_reserved_title() {
    assert_eq!(decode("%5F..."), Ok("_...".to_string()));
    assert_eq!(decode("%5Fa"), Ok("_a".to_string()));
    assert_eq!(decode("%5f"), Ok("_".to_string()));
    assert_eq!(decode("a%5F"), Ok("a_".to_string()));
    assert_eq!(decode("_"), Ok("_".to_string()));
    assert_eq!(decode("."), Ok(".".to_string()));
    assert_eq!(decode(".."), Ok("..".to_string()));
    assert_eq!(decode("%2E%2E"), Ok("..".to_string()));
}

#[test]
fn no_slug_is_empty_or_a_dot_segment() {
    let titles = ["", ".", "..", "...", "a", " ", "/", "%", "_", "%5F", "\u{e9}"];
    let mut slugs = vec![];
    for title in titles {
        let slug = encode(title);
        assert!(!slug.is_empty());
        assert_ne!(slug, ".");
        assert_ne!(slug, "..");
        assert!(slug
            .chars()
            .all(|c| c.is_ascii_alphanumeric() || "-._~%".contains(c)));
        assert_eq!(decode(&slug), Ok(title.to_string()));
        assert!(!slugs.contains(&slug));
        slugs.push(slug);
    }
}

#[test]
fn encode_escapes_everything_else() {
    assert_eq!(encode("this that"), "this%20that");
    assert_eq!(encode("&a%b!c.d?e"), "%26a%25b%21c.d%3Fe");
    assert_eq!(encode("a/b"), "a%2Fb");
    assert_eq!(encode("\0"), "%00");
    assert_eq!(encode("Say what\u{203d}"), "Say%20what%E2%80%BD");
    assert_eq!(encode("\u{1f47e} Exterminate!"), "%F0%9F%91%BE%20Exterminate%21");
}

#[test]
fn decode_reads_escapes_in_either_case() {
    assert_eq!(decode("this%20that"), Ok("this that".to_string()));
    assert_eq!(decode("%2f%2F"), Ok("//".to_string()));
    assert_eq!(decode("%F0%9F%91%BE%20Exterminate%21"), Ok("\u{1f47e} Exterminate!".to_string()));
    assert_eq!(decode(""), Ok(String::new()));
    assert_eq!(decode("a+b"), Ok("a+b".to_string()));
}

#[test]
fn decode_keeps_a_percent_sign_without_two_digits() {
    assert_eq!(decode("this%20that%"), Ok("this that%".to_string()));
    assert_eq!(decode("this%20that%2"), Ok("this that%2".to_string()));
    assert_eq!(decode("this%%2that"), Ok("this%%2that".to_string()));
    assert_eq!(decode("this%2x%26that"), Ok("this%2x&that".to_string()));
    assert_eq!(decode("this%2%26that"), Ok("this%2&that".to_string()));
    assert_eq!(decode("%zz"), Ok("%zz".to_string()));
    assert_eq!(decode("%%41"), Ok("%A".to_string()));
}

#[test]
fn decode_rejects_bytes_that_are_not_utf8() {
    assert_eq!(decode("%F0%0F%91%BE%20Hello%21"), Err(DecodeError::InvalidUtf8));
    assert_eq!(decode("%FF"), Err(DecodeError::InvalidUtf8));
    assert_eq!(decode("abc%C3"), Err(DecodeError::InvalidUtf8));
}

#[test]
fn decode_undoes_encode() {
    let titles = [
        "",
        ".",
        "..",
        "...",
        "_",
        "_.",
        "%5F",
        "Home",
        "Other Page",
        "100% sure?",
        "a/b\\c",
        "%41",
        "%2",
        "na\u{ef}ve caf\u{e9}",
        "\u{65e5}\u{672c}\u{8a9e}",
        "\u{1f47e}",
        "tab\tnewline\n",
        "..",
        "~user_name-1.0",
    ];
    for title in titles {
        assert_eq!(decode(&encode(title)), Ok(title.to_string()));
    }
}

#[test]
fn slugs_hold_only_safe_characters() {
    let slug = encode("a/b c?d#e%f\u{e9}\\g:h");
    assert!(slug
        .chars()
        .all(|c| c.is_ascii_alphanumeric() || "-._~%".contains(c)));
    assert_eq!(slug, "a%2Fb%20c%3Fd%23e%25f%C3%A9%5Cg%3Ah");
}
