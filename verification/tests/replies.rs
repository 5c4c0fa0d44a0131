use caibot::handlers::{sell_stat_text, summary_text};
use caibot::stats::Summary;
use caibot::text::format_u64;

#[test]
fn format_u64_writes_decimal() {
    assert_eq!(format_u64(0), "0");
    assert_eq!(format_u64(7), "7");
    assert_eq!(format_u64(1234), "1234");
    assert_eq!(format_u64(u64::MAX), "18446744073709551615");
}

#[test]
fn sell_stat_text_small_count() {
    assert_eq!(sell_stat_text(3), "我已经卖了 3 句菜");
    assert_eq!(sell_stat_text(20), "我已经卖了 20 句菜");
}

#[test]
fn sell_stat_text_large_count_appends_groan() {
    assert_eq!(sell_stat_text(21), "我已经卖了 21 句菜，我 zc");
}

#[test]
fn summary_text_joins_top_items() {
    let s = Summary {
        total: 12,
        users: 3,
        top_sentences: vec![(String::from("菜喘"), 9u64), (String::from("b"), 3)],
        top_user_count: 7,
    };
    let expected = "总共已经有 3 名迟化人卖了 12 句菜\n其中最迟的人卖了 7 句\n\n被卖得最多次的句子：\n菜喘：9 次\nb：3 次";
    assert_eq!(summary_text(&s), expected);
}

#[test]
fn summary_text_with_no_top_items() {
    let s = Summary { total: 0, users: 0, top_sentences: vec![], top_user_count: 0 };
    let expected = "总共已经有 0 名迟化人卖了 0 句菜\n其中最迟的人卖了 0 句\n\n被卖得最多次的句子：\n";
    assert_eq!(summary_text(&s), expected);
}
