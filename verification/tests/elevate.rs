use shaman_core::elevate::{command_line, wide};

#[test]
fn wide_strings_are_utf16_with_a_terminating_nul() {
    assert_eq!(wide("ab"), vec![0x61, 0x62, 0]);
    assert_eq!(wide(""), vec![0]);
    assert_eq!(wide("é€"), vec![0xe9, 0x20ac, 0]);
    let expected: Vec<u16> = "x😀".encode_utf16().chain(std::iter::once(0)).collect();
    assert_eq!(wide("x😀"), expected);
}

#[test]
fn the_program_and_each_argument_are_quoted() {
    let args = vec!["shaman-1234".to_string(), "n once".to_string()];
    assert_eq!(
        command_line(r"C:\Program Files\Shaman\shaman-helper.exe", &args),
        r#""C:\Program Files\Shaman\shaman-helper.exe" "shaman-1234" "n once""#
    );
    assert_eq!(command_line("x.exe", &Vec::new()), "\"x.exe\"");
}
