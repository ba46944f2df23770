use video_lab::text::{parse_trimmed, push_decimal, push_list, push_padded};

fn decimal(n: u64) -> String {
    let mut s = String::new();
    push_decimal(&mut s, n);
    s
}

fn padded(n: u64, width: u64) -> String {
    let mut s = String::new();
    push_padded(&mut s, n, width);
    s
}

#[test]
fn decimals_are_written_in_full() {
    for n in [0u64, 1, 9, 10, 99, 100, 1_000_007, u64::MAX] {
        assert_eq!(decimal(n), format!("{n}"));
    }
}

#[test]
fn zeros_fill_up_to_the_width_and_never_cut() {
    assert_eq!(padded(0, 6), "000000");
    assert_eq!(padded(42, 4), "0042");
    assert_eq!(padded(12345, 4), "12345");
    assert_eq!(padded(7, 0), "7");
    assert_eq!(padded(u64::MAX, 6), format!("{}", u64::MAX));
}

#[test]
fn lists_look_like_debug_output() {
    for items in [vec![], vec![5usize], vec![1, 2, 3], vec![0, 10, 100]] {
        let mut s = String::from("shape ");
        push_list(&mut s, &items);
        assert_eq!(s, format!("shape {items:?}"));
    }
}

#[test]
fn text_that_std_parses_is_parsed_alike() {
    let texts = [
        "", " ", "0", "7", " 512 ", "\t256\n", "+9", "+", "-1", "++4", "4 4", "0x10", "1e3", "007",
        "18446744073709551615", "18446744073709551616", "99999999999999999999999", "\u{a0}12\u{3000}",
        "\u{2028}3", "12\u{200b}", "\u{85}8\u{85}", "\u{661}", "000000000000000000000000000001",
    ];
    for text in texts {
        assert_eq!(parse_trimmed(text), text.trim().parse::<usize>().ok(), "{text:?}");
    }
}
