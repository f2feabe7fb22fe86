use daily_ai::cleaner::ResponseCleaner;

#[test]
fn cleans_nested_json() {
    let resp = "{\"outer\": {\"inner\": 1}, \"next\": 2}";
    let mut cleaner = ResponseCleaner::new();
    let cleaned = cleaner.clean(resp);
    assert_eq!(cleaned, "{\"outer\":{\"inner\":1},\"next\":2}");
}

#[test]
fn cleans_negative_numbers() {
    let resp = "{\"temp\": -5.0}";
    let mut cleaner = ResponseCleaner::new();
    let cleaned = cleaner.clean(resp);
    assert_eq!(cleaned, "{\"temp\":-5.0}");
}

#[test]
fn cleans_booleans_and_null() {
    let resp = "{\"is_valid\": true, \"is_bad\": false, \"nothing\": null}";
    let mut cleaner = ResponseCleaner::new();
    let cleaned = cleaner.clean(resp);
    assert_eq!(
        cleaned,
        "{\"is_valid\":true,\"is_bad\":false,\"nothing\":null}"
    );
}

#[test]
fn cleans_noise_around_values() {
    let resp = "!{\"key\": O\"Value\", \"num\": #123, \"bool\": !true}";
    let mut cleaner = ResponseCleaner::new();
    let cleaned = cleaner.clean(resp);
    assert_eq!(cleaned, "{\"key\":\"Value\",\"num\":123,\"bool\":true}");
}

#[test]
fn cleans_simple_object_with_noise() {
    let resp = "random prefix {\"label\": other chars \"Tech\", should be 12 trimmed \"duration\": 1275.0} trailing";
    let mut cleaner = ResponseCleaner::new();
    let cleaned = cleaner.clean(resp);
    assert_eq!(cleaned, "{\"label\":\"Tech\",\"duration\":1275.0}");
}

#[test]
fn preserves_brackets_and_quotes_inside() {
    let resp = "### [{\"label\": \"A [bracket] test\", # \"with_num\": 1234!Ld}] ###";
    let mut cleaner = ResponseCleaner::new();
    let cleaned = cleaner.clean(resp);
    assert_eq!(
        cleaned,
        "[{\"label\":\"A [bracket] test\",\"with_num\":1234}]"
    );
}

#[test]
fn handles_escaped_quotes_inside_string() {
    let resp = "!! {\"Number\": 1567,   1.-   \"label\": \"He said \\\"hi\\\"\"} !!";
    let mut cleaner = ResponseCleaner::new();
    let cleaned = cleaner.clean(resp);
    assert_eq!(
        cleaned,
        "{\"Number\":1567,\"label\":\"He said \\\"hi\\\"\"}"
    );
}

#[test]
fn cleaner_is_reusable_after_a_reply() {
    let mut cleaner = ResponseCleaner::new();
    assert_eq!(cleaner.clean("[1, 2"), "[1,2");
    assert_eq!(cleaner.clean("xx {\"a\": [true]} yy"), "{\"a\":[true]}");
}

#[test]
fn cleaner_keeps_a_trailing_literal() {
    let mut cleaner = ResponseCleaner::new();
    assert_eq!(cleaner.clean("[false"), "[false");
    assert_eq!(cleaner.clean("[maybe"), "[");
}

#[test]
fn cleaner_drops_literals_in_key_position() {
    let mut cleaner = ResponseCleaner::new();
    assert_eq!(cleaner.clean("{true: 1}"), "{}");
    assert_eq!(cleaner.clean("noise only"), "");
}
