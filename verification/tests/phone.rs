use pattern_catalog::phone::{is_phone, is_phone_easy, is_tel_phone};

#[test]
fn test_is_phone() {
    let phone_number = String::from("18328073000");
    let phone_number_2 = String::from("28317890987");
    let phone_number_3 = String::from("+8618317890987");
    let phone_number_4 = String::from("008618317890987");
    assert_eq!(is_phone(&phone_number), true);
    assert_eq!(is_phone(&phone_number_3), true, "+86");
    assert_eq!(is_phone(&phone_number_2), false);
    assert_eq!(is_phone(&phone_number_4), true, "0086");
}

#[test]
fn test_is_phone_easy() {
    let phone_number = String::from("18328073000");
    let phone_number_2 = String::from("28317890987");
    let phone_number_3 = String::from("+8618317890987");
    let phone_number_4 = String::from("008618317890987");
    let phone_number_5 = String::from("008612317890987");
    assert_eq!(is_phone_easy(&phone_number), true);
    assert_eq!(is_phone_easy(&phone_number_3), true, "+86");
    assert_eq!(is_phone_easy(&phone_number_2), false);
    assert_eq!(is_phone_easy(&phone_number_4), true, "0086");
    assert_eq!(is_phone_easy(&phone_number_5), true, "second digit 2");
}

#[test]
fn test_is_tel_phone() {
    let phone_number = String::from("0817-12341234");
    let phone_number_2 = String::from("0817-12341234-1233");
    let phone_number_3 = String::from("17890981");
    let phone_number_4 = String::from("18317890987");
    assert_eq!(is_tel_phone(&phone_number), true, "area code and number");
    assert_eq!(is_tel_phone(&phone_number_2), true, "with extension");
    assert_eq!(is_tel_phone(&phone_number_3), true, "bare number");
    assert_eq!(is_tel_phone(&phone_number_4), false, "mobile number");
}
