use rndwalker::labels::{
    folder_label, local_timestamp, preset_hotkey_label, reload_message, timestamp,
};
use rndwalker::layout::bucket_pixels;
use rndwalker::order::str_less_exec;
use rndwalker::text::{decimal_string, is_blank, is_whitespace, text_eq, trim};

#[test]
fn trim_matches_std() {
    for s in ["", " ", "  a b  ", "\u{3000}x\u{2003}", "\n\tq\r", "abc", "\u{85}\u{a0}"] {
        assert_eq!(trim(s), s.trim());
        assert_eq!(is_blank(s), s.trim().is_empty());
    }
}

#[test]
fn whitespace_matches_std() {
    for code in 0u32..0x3100 {
        if let Some(c) = char::from_u32(code) {
            assert_eq!(is_whitespace(c), c.is_whitespace(), "{code:x}");
        }
    }
}

#[test]
fn decimal_strings() {
    assert_eq!(decimal_string(0), "0");
    assert_eq!(decimal_string(7), "7");
    assert_eq!(decimal_string(1234567890), "1234567890");
    assert_eq!(decimal_string(u128::MAX), u128::MAX.to_string());
}

#[test]
fn labels() {
    assert_eq!(folder_label(Some(0)), "フォルダ1");
    assert_eq!(folder_label(Some(8)), "フォルダ9");
    assert_eq!(folder_label(None), "全フォルダ");
    assert_eq!(preset_hotkey_label(None), "なし");
    assert_eq!(preset_hotkey_label(Some(12)), "F12");
    assert_eq!(timestamp(1500), "epoch+1500ms");
    assert_eq!(reload_message(Some(1), 4), "フォルダ2 を再読み込みしました: 4 videos");
}

#[test]
fn string_order_matches_std() {
    let words = ["", "a", "b", "B", "ab", "aa", "あ", "ア", "z", "zz", "é"];
    for x in words {
        for y in words {
            assert_eq!(str_less_exec(x, y), x < y, "{x} {y}");
            assert_eq!(text_eq(x, y), x == y);
        }
    }
}

#[test]
fn bucket_rounds_up_to_multiple_of_64_pixels() {
    assert_eq!(bucket_pixels(0), 64);
    assert_eq!(bucket_pixels(1), 64);
    assert_eq!(bucket_pixels(64), 64);
    assert_eq!(bucket_pixels(65), 128);
    assert_eq!(bucket_pixels(1080), 1088);
    assert_eq!(bucket_pixels(1920), 1920);
    assert_eq!(bucket_pixels(129), bucket_pixels(192));
    assert_eq!(bucket_pixels(200), bucket_pixels(256));
}

#[test]
fn local_time_stamps_are_zero_padded() {
    assert_eq!(local_timestamp(2024, 3, 7, 9, 5, 2, 45), "2024-03-07 09:05:02.045");
    assert_eq!(local_timestamp(12, 12, 31, 23, 59, 59, 999), "0012-12-31 23:59:59.999");
    assert_eq!(
        local_timestamp(65535, 100, 0, 0, 0, 0, 1000),
        format!("{:04}-{:02}-{:02} {:02}:{:02}:{:02}.{:03}", 65535, 100, 0, 0, 0, 0, 1000)
    );
}
