use bingo_amida::rng::DEFAULT_SEED;
use bingo_amida::seed::{fold_seed, parse_seed_lines, seed_from_text};
use bingo_amida::state::prize_count_from_text;

#[test]
fn parses_one_number_per_line() {
    let text = b"3\n5\r\n  7  \n+11\n";
    assert_eq!(parse_seed_lines(text), vec![3, 5, 7, 11]);
}

#[test]
fn skips_malformed_lines() {
    let text = b"abc\n12x\n-4\n\n+\n4294967296\n99999999999999999999\n 8\n4294967295";
    assert_eq!(parse_seed_lines(text), vec![8, 4294967295]);
}

#[test]
fn last_line_without_newline_counts() {
    assert_eq!(parse_seed_lines(b"2\n3"), vec![2, 3]);
    assert_eq!(parse_seed_lines(b""), Vec::<u32>::new());
}

#[test]
fn seed_is_wrapping_product() {
    assert_eq!(seed_from_text(b"3\n5\nabc\n +7 \n"), 105);
    assert_eq!(fold_seed(&vec![4294967295, 2]), 4294967294);
    assert_eq!(fold_seed(&vec![65536, 3]), 196608);
}

#[test]
fn seed_falls_back_to_default() {
    assert_eq!(seed_from_text(b""), DEFAULT_SEED);
    assert_eq!(seed_from_text(b"no numbers here\n"), DEFAULT_SEED);
    assert_eq!(seed_from_text(b"0\n17\n"), DEFAULT_SEED);
    // 2^16 * 2^16 wraps to zero
    assert_eq!(fold_seed(&vec![65536, 65536]), DEFAULT_SEED);
    assert_eq!(fold_seed(&vec![]), DEFAULT_SEED);
}

#[test]
fn prize_count_reads_trimmed_number() {
    assert_eq!(prize_count_from_text(b" 12\n"), 12);
    assert_eq!(prize_count_from_text(b"0"), 0);
    assert_eq!(prize_count_from_text(b"abc"), 8);
    assert_eq!(prize_count_from_text(b"300"), 8);
    assert_eq!(prize_count_from_text(b"3\n4"), 8);
    assert_eq!(prize_count_from_text(b""), 8);
}

#[test]
fn unicode_whitespace_is_trimmed() {
    // no-break space before the number
    assert_eq!(parse_seed_lines("\u{a0}7\n".as_bytes()), vec![7]);
    assert_eq!(seed_from_text("\u{a0}7".as_bytes()), 7);
    let text = "\u{3000}12\u{2028}\n\u{85}3\u{2009}\u{202f}\n\u{1680}+5\u{205f}\n";
    assert_eq!(parse_seed_lines(text.as_bytes()), vec![12, 3, 5]);
    assert_eq!(seed_from_text(text.as_bytes()), 180);
}

#[test]
fn non_whitespace_characters_are_not_trimmed() {
    // zero-width space and a lone continuation byte are not whitespace
    assert_eq!(parse_seed_lines("\u{200b}7\n".as_bytes()), Vec::<u32>::new());
    assert_eq!(parse_seed_lines(&[0x80, b'7']), Vec::<u32>::new());
    assert_eq!(parse_seed_lines(&[b'7', 0xc2]), Vec::<u32>::new());
}

#[test]
fn prize_count_trims_unicode_whitespace() {
    assert_eq!(prize_count_from_text(" \u{a0}12\u{3000}\n".as_bytes()), 12);
    assert_eq!(prize_count_from_text("\u{200b}12".as_bytes()), 8);
}
