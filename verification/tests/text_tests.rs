use dvop::extensions::rust_completion::{docs_root_from_output, rust_version_from_output, toolchain_from_output};
use dvop::text::{decimal_string, parse_u32, split_words};

#[test]
fn test_parse_u32_like_std() {
    for s in ["0", "42", "+7", "4294967295", "4294967296", "", "+", "-1", "12a", " 1", "007"] {
        assert_eq!(parse_u32(s), s.parse::<u32>().ok(), "input {:?}", s);
    }
}

#[test]
fn test_decimal_string() {
    for n in [0u64, 7, 10, 1234567890, u64::MAX] {
        assert_eq!(decimal_string(n), n.to_string());
    }
}

#[test]
fn test_split_words_like_std() {
    for s in ["", "  a  b\tc\n", "one", "x  ", "\u{2003}wide\u{2003}space"] {
        let expected: Vec<String> = s.split_whitespace().map(|w| w.to_string()).collect();
        assert_eq!(split_words(s), expected);
    }
}

#[test]
fn test_toolchain_outputs() {
    assert_eq!(rust_version_from_output("rustc 1.91.1 (ed61e7d7e 2025-11-07)\n"), "rustc 1.91.1");
    assert_eq!(rust_version_from_output("  rustc\n"), "rustc");
    assert_eq!(toolchain_from_output(" stable-x86_64-unknown-linux-gnu (default)\n"), "stable-x86_64-unknown-linux-gnu (default)");
    assert_eq!(
        docs_root_from_output("/home/u/.rustup/toolchains/stable/share/doc/rust/html/index.html\n"),
        Some("/home/u/.rustup/toolchains/stable/share/doc/rust/html".to_string())
    );
}
