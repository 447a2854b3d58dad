use gen_serving_gateway::api::models::{
    default_backend_type, default_health_check_interval, default_health_check_path, default_n,
    default_protocol, default_response_format, default_size, default_timeout, default_weight,
    digits_of, parse_u32, GenerateImageRequest,
};

fn request(size: &str) -> GenerateImageRequest {
    GenerateImageRequest {
        prompt: "p".to_string(),
        model: None,
        n: default_n(),
        size: size.to_string(),
        response_format: default_response_format(),
        negative_prompt: None,
        seed: None,
        guidance_scale: None,
        num_inference_steps: None,
        backend: None,
    }
}

fn parse(s: &str) -> Option<u32> {
    let chars: Vec<char> = s.chars().collect();
    parse_u32(&chars, 0, chars.len())
}

#[test]
fn defaults_of_a_request() {
    assert_eq!(default_n(), 1);
    assert_eq!(default_size(), "1024x1024");
    assert_eq!(default_response_format(), "url");
    assert_eq!(default_protocol(), "http");
    assert_eq!(default_backend_type(), "image");
    assert_eq!(default_health_check_path(), "/health");
    assert_eq!(default_health_check_interval(), 30);
    assert_eq!(default_timeout(), 60000);
    assert_eq!(default_weight(), 1);
    assert_eq!(request(&default_size()).parse_size(), (1024, 1024));
}

#[test]
fn invalid_size_is_1024_by_1024() {
    assert_eq!(request("invalid").parse_size(), (1024, 1024));
    assert_eq!(request("").parse_size(), (1024, 1024));
    assert_eq!(request("1x2x3").parse_size(), (1024, 1024));
    assert_eq!(request("12").parse_size(), (1024, 1024));
    assert_eq!(request("512X768").parse_size(), (1024, 1024));
}

#[test]
fn both_sides_fall_back_where_one_does_not_parse() {
    assert_eq!(request("512xabc").parse_size(), (1024, 1024));
    assert_eq!(request("512x").parse_size(), (1024, 1024));
    assert_eq!(request("x768").parse_size(), (1024, 1024));
    assert_eq!(request("x").parse_size(), (1024, 1024));
    assert_eq!(request("axb").parse_size(), (1024, 1024));
    assert_eq!(request("512x 768").parse_size(), (1024, 1024));
    assert_eq!(request("-1x5").parse_size(), (1024, 1024));
    assert_eq!(request("4294967296x4294967295").parse_size(), (1024, 1024));
    assert_eq!(request("+x+").parse_size(), (1024, 1024));
}

#[test]
fn a_size_of_two_numbers_is_read() {
    assert_eq!(request("512x768").parse_size(), (512, 768));
    assert_eq!(request("0x0").parse_size(), (0, 0));
    assert_eq!(request("+7x007").parse_size(), (7, 7));
    assert_eq!(request("4294967295x1").parse_size(), (4294967295, 1));
}

#[test]
fn parse_reads_what_the_standard_parser_reads() {
    for text in [
        "", "+", "-", "0", "7", "+7", "++7", "-7", "007", "12a", "a12", " 12", "12 ", "1_000",
        "4294967295", "4294967296", "99999999999999999999999", "00000000000000000000000000001",
        "\u{661}\u{662}",
    ] {
        assert_eq!(parse(text), text.parse::<u32>().ok(), "parsing {:?}", text);
    }
}

#[test]
fn parse_reads_a_part_of_the_characters() {
    let chars: Vec<char> = "ab123cd".chars().collect();
    assert_eq!(parse_u32(&chars, 2, 5), Some(123));
    assert_eq!(parse_u32(&chars, 2, 6), None);
    assert_eq!(parse_u32(&chars, 3, 3), None);
}

#[test]
fn size_round_trip() {
    for (w, h) in [(1, 1), (512, 768), (1024, 1024), (0, 9), (4294967295, 10), (7, 4294967295)] {
        let size = GenerateImageRequest::format_size(w, h);
        assert_eq!(size, format!("{}x{}", w, h));
        assert_eq!(request(&size).parse_size(), (w, h));
    }
}

#[test]
fn digits_are_decimal() {
    assert_eq!(digits_of(0), vec!['0']);
    assert_eq!(digits_of(9), vec!['9']);
    assert_eq!(digits_of(10), vec!['1', '0']);
    assert_eq!(digits_of(4294967295).iter().collect::<String>(), "4294967295");
}
