use gen_serving_gateway::error::{AppError, ErrorKind};
use gen_serving_gateway::response::url::UrlHandler;
use gen_serving_gateway::text::{
    chars_of, clone_strings, concat3, contains_str, contains_string, join, starts_with,
    str_eq, string_of, suffix_after_last, trim_end_matches, trim_range,
};

#[test]
fn strings_and_characters() {
    assert_eq!(chars_of("h\u{e9}!"), vec!['h', '\u{e9}', '!']);
    assert_eq!(string_of(&vec!['h', '\u{e9}', '!']), "h\u{e9}!");
    assert_eq!(string_of(&Vec::new()), "");
    assert!(str_eq("abc", "abc"));
    assert!(!str_eq("abc", "abd"));
    assert!(!str_eq("abc", "ab"));
    assert!(str_eq("", ""));
    assert_eq!(gen_serving_gateway::text::concat("ab", "cd"), "abcd");
    assert_eq!(concat3("a", "", "c"), "ac");
    assert_eq!(clone_strings(&vec!["a".to_string(), "b".to_string()]), vec!["a", "b"]);
    assert!(contains_string(&vec!["a".to_string(), "b".to_string()], "b"));
    assert!(!contains_string(&vec!["a".to_string()], "b"));
}

#[test]
fn trimming_and_searching() {
    assert_eq!(trim_end_matches("http://a///", '/'), "http://a");
    assert_eq!(trim_end_matches("///", '/'), "");
    assert_eq!(trim_end_matches("a/b", '/'), "a/b");
    assert_eq!(trim_end_matches("", '/'), "");
    assert!(starts_with("abc", "ab"));
    assert!(starts_with("abc", ""));
    assert!(!starts_with("ab", "abc"));
    assert!(!starts_with("abc", "bc"));
    assert!(contains_str("stable-diffusion-v1", "stable-diffusion"));
    assert!(contains_str("xxab", "ab"));
    assert!(contains_str("abc", ""));
    assert!(contains_str("", ""));
    assert!(!contains_str("ab", "abc"));
    assert!(!contains_str("abcabd", "abe"));
    assert_eq!(suffix_after_last("a/b/c", '/'), "c");
    assert_eq!(suffix_after_last("abc", '/'), "abc");
    assert_eq!(suffix_after_last("abc/", '/'), "");
    assert_eq!(join(&["a", "b", "c"], "/"), "a/b/c");
    assert_eq!(join(&["a"], "/"), "a");
    assert_eq!(join(&[], "/"), "");
    assert_eq!(join(&["", ""], "--"), "--");
}

#[test]
fn url_handler_trims_its_prefix() {
    let mut handler = UrlHandler::new("http://localhost:15115/images//".to_string());
    assert_eq!(handler.prefix(), "http://localhost:15115/images");
    handler.set_prefix("http://cdn/".to_string());
    assert_eq!(handler.prefix(), "http://cdn");
    assert_eq!(handler.url_for("a.png"), "http://cdn/a.png");
    assert_eq!(handler.generate_url("dir/"), "http://cdn/dir");
    assert_eq!(handler.generate_url(".."), "http://cdn/..");
    assert_eq!(handler.generate_url_with_path(&["2024", "05", "a.png"]), "http://cdn/2024/05/a.png");
    assert_eq!(handler.generate_url_with_path(&[]), "http://cdn/");
}

#[test]
fn url_handler_extracts_file_names() {
    let handler = UrlHandler::new("http://cdn/files".to_string());
    assert_eq!(handler.extract_filename("http://cdn/files/a/b.png"), Some("a/b.png".to_string()));
    assert_eq!(handler.extract_filename("http://other/x/c.png"), Some("c.png".to_string()));
    assert_eq!(handler.extract_filename("plain.png"), Some("plain.png".to_string()));
    assert_eq!(handler.extract_filename("http://cdn/files/"), Some(String::new()));
    assert_eq!(handler.extract_filename("http://cdn/files"), Some("files".to_string()));
    assert!(handler.is_local_url("http://cdn/files"));
    assert!(handler.is_local_url("http://cdn/filesystem"));
    assert!(!handler.is_local_url("http://cdn/file"));
}

#[test]
fn errors_answer_with_their_status() {
    let cases = [
        (AppError::InvalidRequest("m".to_string()), ErrorKind::InvalidRequest, 400, "invalid_request"),
        (AppError::BackendNotFound("m".to_string()), ErrorKind::BackendNotFound, 404, "backend_not_found"),
        (AppError::NoHealthyBackends("m".to_string()), ErrorKind::NoHealthyBackends, 503, "no_healthy_backends"),
        (AppError::BackendError("m".to_string()), ErrorKind::BackendError, 502, "backend_error"),
        (AppError::HttpClient("m".to_string()), ErrorKind::HttpClient, 502, "http_client_error"),
        (AppError::Config("m".to_string()), ErrorKind::Config, 500, "config_error"),
        (AppError::Internal("m".to_string()), ErrorKind::Internal, 500, "internal_error"),
    ];
    for (error, kind, status, name) in cases {
        assert_eq!(error.kind(), kind);
        assert_eq!(error.status_code(), status);
        assert_eq!(error.error_type(), name);
        assert_eq!(error.message(), "m");
    }
}

#[test]
fn white_space_is_the_unicode_set() {
    let white: Vec<u32> = vec![
        0x9, 0xa, 0xb, 0xc, 0xd, 0x20, 0x85, 0xa0, 0x1680, 0x2000, 0x2001, 0x2002, 0x2003, 0x2004,
        0x2005, 0x2006, 0x2007, 0x2008, 0x2009, 0x200a, 0x2028, 0x2029, 0x202f, 0x205f, 0x3000,
    ];
    for code in 0..=0x10ffffu32 {
        if let Some(c) = char::from_u32(code) {
            let trimmed = trim_range(&vec![c], 0, 1);
            assert_eq!(trimmed.is_empty(), white.contains(&code), "at {:#x}", code);
        }
    }
}

#[test]
fn trimming_takes_white_space_from_both_ends() {
    let chars: Vec<char> = "x \t a b\u{3000}\n y".chars().collect();
    assert_eq!(trim_range(&chars, 1, 10), "a b");
    assert_eq!(trim_range(&chars, 0, chars.len()), "x \t a b\u{3000}\n y");
    assert_eq!(trim_range(&chars, 1, 3), "");
    assert_eq!(trim_range(&chars, 4, 4), "");
}
