use pattern_catalog::common::{
    is_base64, is_credit_card_numbers, is_image_url, is_imei, is_train_number,
    is_unified_social_credit_code, is_url, is_url_with_port, is_video_url,
};
use pattern_catalog::id_card::{
    is_hongkong_id_card, is_id_card, is_macau_id_card, is_taiwan_id_card,
};
use pattern_catalog::phone::{is_phone, is_phone_easy, is_tel_phone};

#[test]
fn empty_string_matches_no_pattern() {
    assert_eq!(is_train_number(""), false);
    assert_eq!(is_imei(""), false);
    assert_eq!(is_url(""), false);
    assert_eq!(is_url_with_port(""), false);
    assert_eq!(is_unified_social_credit_code(""), false);
    assert_eq!(is_video_url(""), false);
    assert_eq!(is_image_url(""), false);
    assert_eq!(is_base64(""), false);
    assert_eq!(is_credit_card_numbers(""), false);
    assert_eq!(is_id_card(""), false);
    assert_eq!(is_hongkong_id_card(""), false);
    assert_eq!(is_macau_id_card(""), false);
    assert_eq!(is_taiwan_id_card(""), false);
    assert_eq!(is_phone(""), false);
    assert_eq!(is_phone_easy(""), false);
    assert_eq!(is_tel_phone(""), false);
}

#[test]
fn empty_payload_data_uri_matches_base64_only() {
    assert_eq!(is_base64("data:,"), true);
    assert_eq!(is_train_number("data:,"), false);
    assert_eq!(is_imei("data:,"), false);
    assert_eq!(is_url("data:,"), false);
    assert_eq!(is_url_with_port("data:,"), false);
    assert_eq!(is_unified_social_credit_code("data:,"), false);
    assert_eq!(is_video_url("data:,"), false);
    assert_eq!(is_image_url("data:,"), false);
    assert_eq!(is_credit_card_numbers("data:,"), false);
    assert_eq!(is_id_card("data:,"), false);
    assert_eq!(is_hongkong_id_card("data:,"), false);
    assert_eq!(is_macau_id_card("data:,"), false);
    assert_eq!(is_taiwan_id_card("data:,"), false);
    assert_eq!(is_phone("data:,"), false);
    assert_eq!(is_phone_easy("data:,"), false);
    assert_eq!(is_tel_phone("data:,"), false);
}

#[test]
fn strict_and_loose_phone_prefixes() {
    assert_eq!(is_phone("18328073000"), true);
    assert_eq!(is_phone("+8618317890987"), true);
    assert_eq!(is_phone("008618317890987"), true);
    assert_eq!(is_phone("28317890987"), false);
    assert_eq!(is_phone_easy("008612317890987"), true);
    assert_eq!(is_phone("008612317890987"), false);
}

#[test]
fn landline_forms() {
    assert_eq!(is_tel_phone("0817-12341234"), true);
    assert_eq!(is_tel_phone("0817-12341234-1233"), true);
    assert_eq!(is_tel_phone("17890981"), true);
    assert_eq!(is_tel_phone("18317890987"), false);
    assert_eq!(is_tel_phone("081-12341234"), true);
    assert_eq!(is_tel_phone("081-1234123"), false);
    assert_eq!(is_tel_phone("1234567"), true);
    assert_eq!(is_tel_phone("123456"), false);
    assert_eq!(is_tel_phone("0817-1234123"), true);
    assert_eq!(is_tel_phone("12345678-"), false);
}

#[test]
fn train_number_bounds() {
    assert_eq!(is_train_number("G14"), true);
    assert_eq!(is_train_number("G11234"), false);
    assert_eq!(is_train_number("G1234"), true);
    assert_eq!(is_train_number("91234"), true);
    assert_eq!(is_train_number("01234"), false);
    assert_eq!(is_train_number("G"), false);
    assert_eq!(is_train_number("GG14"), false);
}

#[test]
fn generic_url_is_a_prefix_match() {
    assert_eq!(is_url("http://baidu.com:8081"), true);
    assert_eq!(is_url("http://baidu.com/asdf/#/234-123"), true);
    assert_eq!(is_url("baidu.com"), true);
    assert_eq!(is_url("baidu"), false);
    assert_eq!(is_url("ftp://a.b.cde/x"), true);
    assert_eq!(is_url(".com"), false);
    assert_eq!(is_url("a.b"), false);
    assert_eq!(is_url("-a.com"), false);
}

#[test]
fn url_with_port_needs_the_port() {
    assert_eq!(is_url_with_port("http://baidu.com:8081"), true);
    assert_eq!(is_url_with_port("http://baidu.com"), false);
    assert_eq!(is_url_with_port("baidu.com:80/"), true);
    assert_eq!(is_url_with_port("baidu.com:123456"), false);
    assert_eq!(is_url_with_port("baidu:80"), false);
    assert_eq!(is_url_with_port("a..b:80"), false);
    assert_eq!(is_url_with_port("ftps://a.b:1"), true);
}

#[test]
fn video_url_extensions_are_lowercase() {
    assert_eq!(is_video_url("http://ASD.COM/asd/asd.psd"), false);
    assert_eq!(is_video_url("http://baidu.com/ewe.mov"), true);
    assert_eq!(is_video_url("https://a/b.rmvb"), true);
    assert_eq!(is_video_url("http://a/b.rm"), true);
    assert_eq!(is_video_url("http://a/b.MP4"), false);
    assert_eq!(is_video_url("http://ab.mp4"), false);
    assert_eq!(is_video_url("ftp://a/b.mp4"), false);
}

#[test]
fn image_url_extension_is_a_bare_suffix() {
    assert_eq!(is_image_url("https://baidu.com/ewe.jpg"), true);
    assert_eq!(is_image_url("http://a/xgif"), true);
    assert_eq!(is_image_url("http://a/b.JPG"), false);
    assert_eq!(is_image_url("http://ab.jpg"), false);
    assert_eq!(is_image_url("http://a/b.jpeg"), true);
}

#[test]
fn id_card_calendar_shape() {
    assert_eq!(is_id_card("511324199612163557"), true);
    assert_eq!(is_id_card("511324199613163557"), false);
    assert_eq!(is_id_card("51132419961216355X"), true);
    assert_eq!(is_id_card("51132419961216355x"), true);
    assert_eq!(is_id_card("511324199612323557"), false);
    assert_eq!(is_id_card("511324217612163557"), false);
    assert_eq!(is_id_card("011324199612163557"), false);
    assert_eq!(is_id_card("5113241996121635578"), false);
}

#[test]
fn regional_id_cards() {
    assert_eq!(is_hongkong_id_card("K034178(2)"), true);
    assert_eq!(is_hongkong_id_card("K034178(A)"), true);
    assert_eq!(is_hongkong_id_card("K034178(B)"), false);
    assert_eq!(is_macau_id_card("5534178(2)"), true);
    assert_eq!(is_macau_id_card("2534178(2)"), false);
    assert_eq!(is_taiwan_id_card("K034178212"), true);
    assert_eq!(is_taiwan_id_card("K03417821"), false);
}

#[test]
fn imei_and_card_number_lengths() {
    assert_eq!(is_imei("122457589068754"), true);
    assert_eq!(is_imei("12245758906875411"), true);
    assert_eq!(is_imei("12245758906875"), false);
    assert_eq!(is_imei("122457589068754112"), false);
    assert_eq!(is_imei("12245758906875a"), false);
    assert_eq!(is_credit_card_numbers("1234567890"), true);
    assert_eq!(is_credit_card_numbers("0234567890"), false);
    assert_eq!(is_credit_card_numbers("123456789"), false);
    assert_eq!(is_credit_card_numbers("123456789012345678901234567890"), true);
    assert_eq!(is_credit_card_numbers("1234567890123456789012345678901"), false);
}

#[test]
fn unified_social_credit_code_shape() {
    assert_eq!(is_unified_social_credit_code("9A1234568378908767"), true);
    assert_eq!(is_unified_social_credit_code("http://baidu.com"), false);
    assert_eq!(is_unified_social_credit_code("9I1234568378908767"), false);
    assert_eq!(is_unified_social_credit_code("9A12345683789087671"), false);
}

#[test]
fn base64_data_uri_forms() {
    assert_eq!(is_base64("data:image/gif;base64,dsafasdfasddGhpcyBpcyBhIGV4YW1wbGU="), true);
    assert_eq!(is_base64("data:;base64,abc0/="), true);
    assert_eq!(is_base64("data:image/svg+xml;charset=utf-8,abc"), true);
    assert_eq!(is_base64(" \t data:, \n"), true);
    assert_eq!(is_base64("data:"), false);
    assert_eq!(is_base64("data:image,abc"), false);
    assert_eq!(is_base64("data:image/gif;base64,ABC"), true);
    assert_eq!(is_base64("data:,A"), true);
    assert_eq!(is_base64("data:,<>"), false);
    assert_eq!(is_base64("xdata:,"), false);
    assert_eq!(is_base64("data:image/gif;base64;base64,abc"), false);
}

#[test]
fn predicates_are_idempotent() {
    let inputs = ["18328073000", "G14", "data:,", "http://baidu.com:8081", ""];
    for text in inputs.iter() {
        assert_eq!(is_phone(text), is_phone(text));
        assert_eq!(is_phone_easy(text), is_phone_easy(text));
        assert_eq!(is_tel_phone(text), is_tel_phone(text));
        assert_eq!(is_train_number(text), is_train_number(text));
        assert_eq!(is_imei(text), is_imei(text));
        assert_eq!(is_url(text), is_url(text));
        assert_eq!(is_url_with_port(text), is_url_with_port(text));
        assert_eq!(is_unified_social_credit_code(text), is_unified_social_credit_code(text));
        assert_eq!(is_video_url(text), is_video_url(text));
        assert_eq!(is_image_url(text), is_image_url(text));
        assert_eq!(is_base64(text), is_base64(text));
        assert_eq!(is_credit_card_numbers(text), is_credit_card_numbers(text));
        assert_eq!(is_id_card(text), is_id_card(text));
        assert_eq!(is_hongkong_id_card(text), is_hongkong_id_card(text));
        assert_eq!(is_macau_id_card(text), is_macau_id_card(text));
        assert_eq!(is_taiwan_id_card(text), is_taiwan_id_card(text));
    }
}

#[test]
fn non_ascii_input_is_rejected_cleanly() {
    assert_eq!(is_phone("电话号码零一二三四五六七八九十"), false);
    assert_eq!(is_tel_phone("座机号码加内部短号一二三四五六"), false);
    assert_eq!(is_train_number("G一四"), false);
    assert_eq!(is_url("例子.com"), true);
    assert_eq!(is_url("例子.例子"), false);
}
