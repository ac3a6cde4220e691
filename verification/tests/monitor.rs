use zonewm::models::monitor::wide_to_string;

#[test]
fn wide_text_stops_at_the_first_nul() {
    let wide: Vec<u16> = "DISPLAY1".encode_utf16().chain([0u16, 0x41, 0x42]).collect();
    assert_eq!(wide_to_string(&wide), "DISPLAY1");
}

#[test]
fn wide_text_without_nul_is_read_whole() {
    let wide: Vec<u16> = "Monitor".encode_utf16().collect();
    assert_eq!(wide_to_string(&wide), "Monitor");
}

#[test]
fn wide_text_starting_with_nul_is_empty() {
    assert_eq!(wide_to_string(&[0u16, 0x41]), "");
}

#[test]
fn unpaired_surrogate_reads_as_replacement_character() {
    assert_eq!(wide_to_string(&[0x41u16, 0xD800, 0x42, 0]), "A\u{FFFD}B");
}
