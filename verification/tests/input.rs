use nautilus::input::{chosen, parse_id, settings_path};
use nautilus::order::sorted_order;
use nautilus::models::{Child, ContentKind};

#[test]
fn parse_id_reads_decimal_numbers() {
    assert_eq!(parse_id("0"), 0);
    assert_eq!(parse_id("7"), 7);
    assert_eq!(parse_id("42"), 42);
    assert_eq!(parse_id("007"), 7);
    assert_eq!(parse_id("+15"), 15);
    assert_eq!(parse_id("-15"), -15);
    assert_eq!(parse_id("-0"), 0);
    assert_eq!(parse_id("2147483647"), i32::MAX);
    assert_eq!(parse_id("-2147483648"), i32::MIN);
    assert_eq!(parse_id("0000000000000000000002147483647"), i32::MAX);
}

#[test]
fn parse_id_gives_zero_for_anything_else() {
    for text in [
        "",
        "-",
        "+",
        "+-1",
        "--1",
        " 1",
        "1 ",
        "1.0",
        "1,000",
        "abc",
        "12a",
        "a12",
        "0x10",
        "١٢",
        "2147483648",
        "-2147483649",
        "21474836470",
        "99999999999999999999999999999999999999",
        "-99999999999999999999999999999999999999",
    ] {
        assert_eq!(parse_id(text), 0, "{:?}", text);
        assert_eq!(parse_id(text), text.parse::<i32>().unwrap_or(0), "{:?}", text);
    }
}

#[test]
fn parse_id_agrees_with_the_standard_parser() {
    for text in ["5", "-5", "+5", "05", "2147483647", "-2147483648", "123456789"] {
        assert_eq!(parse_id(text), text.parse::<i32>().unwrap(), "{:?}", text);
    }
}

#[test]
fn settings_path_is_below_the_configuration_directory() {
    assert_eq!(settings_path("/home/user/.config"), "/home/user/.config/N4/.env");
    assert_eq!(settings_path(""), "/N4/.env");
}

#[test]
fn content_kinds_have_tags_and_labels() {
    let kinds = [ContentKind::Article, ContentKind::Link, ContentKind::System];
    let names = ["article", "link", "system"];
    let labels = ["Article", "Link", "System"];
    for (i, kind) in kinds.iter().enumerate() {
        assert_eq!(kind.name(), names[i]);
        assert_eq!(kind.label(), labels[i]);
        assert_eq!(ContentKind::from_name(names[i]), Some(*kind));
        assert_eq!(ContentKind::at(i), Some(*kind));
    }
    assert_eq!(ContentKind::at(3), None);
    assert_eq!(ContentKind::from_name("Article"), None);
    assert_eq!(ContentKind::from_name(""), None);
    assert_eq!(ContentKind::from_name("post"), None);
}

#[test]
fn child_references_are_made_of_kind_number_and_key() {
    let article = Child::from_parts(ContentKind::Article, Some(4), None);
    assert_eq!(article, Some(Child::Article(4)));
    let link = Child::from_parts(ContentKind::Link, Some(5), Some("k".to_string()));
    assert_eq!(link, Some(Child::Link(5)));
    let system = Child::from_parts(ContentKind::System, Some(6), Some("k".to_string()));
    assert_eq!(system, Some(Child::System("k".to_string())));
    assert_eq!(Child::from_parts(ContentKind::Article, None, Some("k".to_string())), None);
    assert_eq!(Child::from_parts(ContentKind::Link, None, None), None);
    assert_eq!(Child::from_parts(ContentKind::System, Some(1), None), None);
    for child in [article.unwrap(), link.unwrap(), system.unwrap()] {
        assert_eq!(
            Child::from_parts(child.kind(), child.number(), child.key()),
            Some(child)
        );
    }
}

#[test]
fn chosen_reads_which_record_was_typed() {
    assert_eq!(chosen(ContentKind::Article, "12"), Some(Child::Article(12)));
    assert_eq!(chosen(ContentKind::Link, "+7"), Some(Child::Link(7)));
    assert_eq!(chosen(ContentKind::Article, "-3"), Some(Child::Article(-3)));
    assert_eq!(
        chosen(ContentKind::System, "routes"),
        Some(Child::System("routes".to_string()))
    );
    assert_eq!(chosen(ContentKind::System, "0"), Some(Child::System("0".to_string())));
    assert_eq!(chosen(ContentKind::System, " "), Some(Child::System(" ".to_string())));
}

#[test]
fn chosen_is_none_where_nothing_was_chosen() {
    for typed in ["", "0", "-0", "abc", "1.5", "99999999999"] {
        assert_eq!(chosen(ContentKind::Article, typed), None, "{:?}", typed);
        assert_eq!(chosen(ContentKind::Link, typed), None, "{:?}", typed);
    }
    assert_eq!(chosen(ContentKind::System, ""), None);
}

#[test]
fn sorted_order_names_the_lowest_identity_first() {
    assert_eq!(sorted_order(&vec![]), Vec::<usize>::new());
    assert_eq!(sorted_order(&vec![5]), vec![0]);
    assert_eq!(sorted_order(&vec![1, 2, 3]), vec![0, 1, 2]);
    assert_eq!(sorted_order(&vec![3, 2, 1]), vec![2, 1, 0]);
    assert_eq!(sorted_order(&vec![5, 3, 2, 2, 1]), vec![4, 2, 3, 1, 0]);
    assert_eq!(sorted_order(&vec![2, 2, 2]), vec![0, 1, 2]);
    assert_eq!(
        sorted_order(&vec![0, i32::MIN, i32::MAX, -1, 7]),
        vec![1, 3, 0, 4, 2]
    );
}
