use custom_rule::metadata::FileMetadata;
use custom_rule::rule_custom;
use custom_rule::rules::{RulePlace, RuleType, SingleRule};

fn wombat() -> FileMetadata {
    FileMetadata { created: Some(1_600_000_000), modified: Some(1_600_000_060), size: Some(2) }
}

#[test]
fn test_custom() {
    let mut rule: SingleRule = SingleRule::new();
    rule.rule_type = RuleType::Custom;
    rule.rule_place = RulePlace::NoPlace;
    let metadata = wombat();

    rule.rule_data.custom_text = "$(CURR)".to_string();
    assert_eq!(rule_custom("wombat.txt", &rule, 0, false, &metadata), "wombat.txt");

    rule.rule_data.custom_text = "$(NAME)".to_string();
    assert_eq!(rule_custom("wombat.txt", &rule, 0, false, &metadata), "wombat");

    rule.rule_data.custom_text = "$(EXT)".to_string();
    assert_eq!(rule_custom("wombat.txt", &rule, 0, false, &metadata), "txt");

    rule.rule_data.custom_text = "$(N:)".to_string();
    assert_eq!(rule_custom("wombat.txt", &rule, 0, false, &metadata), "$(N:)");
    rule.rule_data.custom_text = "$(N:20:22:)".to_string();
    assert_eq!(rule_custom("wombat.txt", &rule, 0, false, &metadata), "$(N:20:22:)");
    rule.rule_data.custom_text = "$(20::22)".to_string();
    assert_eq!(rule_custom("wombat.txt", &rule, 0, false, &metadata), "$(20::22)");
    rule.rule_data.custom_text = "$(N:::22)".to_string();
    assert_eq!(rule_custom("wombat.txt", &rule, 0, false, &metadata), "$(N:::22)");
    rule.rule_data.custom_text = "$(:::)".to_string();
    assert_eq!(rule_custom("wombat.txt", &rule, 0, false, &metadata), "$(:::)");
    rule.rule_data.custom_text = "$(N:20:22:4)".to_string();
    assert_eq!(rule_custom("wombat.txt", &rule, 0, false, &metadata), "0020");
    assert_eq!(rule_custom("wombat.txt", &rule, 1, false, &metadata), "0042");
    assert_eq!(rule_custom("wombat.txt", &rule, 2, false, &metadata), "0064");
    rule.rule_data.custom_text = "$(N:1:10:3)$(N:2:10:4)".to_string();
    assert_eq!(rule_custom("wombat.txt", &rule, 0, false, &metadata), "0010002");
    assert_eq!(rule_custom("wombat.txt", &rule, 1, false, &metadata), "0110012");
    rule.rule_data.custom_text = "$(N:0:2:5)".to_string();
    assert_eq!(rule_custom("wombat.txt", &rule, 0, false, &metadata), "00000");
    assert_eq!(rule_custom("wombat.txt", &rule, 1, false, &metadata), "00002");
    assert_eq!(rule_custom("wombat.txt", &rule, 2, false, &metadata), "00004");
    rule.rule_data.custom_text = "$(N:10:5:1)".to_string();
    assert_eq!(rule_custom("wombat.txt", &rule, 0, false, &metadata), "10");
    assert_eq!(rule_custom("wombat.txt", &rule, 1, false, &metadata), "15");
    assert_eq!(rule_custom("wombat.txt", &rule, 2, false, &metadata), "20");
    rule.rule_data.custom_text = "$(EXT)$(())$(($(N:10:5:1)".to_string();
    assert_eq!(rule_custom("wombat.txt", &rule, 0, false, &metadata), "txt$(())$((10");

    rule.rule_data.custom_text = "$(SIZE)".to_string();
    assert_eq!(rule_custom("wombat.txt", &rule, 0, false, &metadata), "2 B");

    rule.rule_data.custom_text = "$(MODIF)".to_string();
    let text = rule_custom("wombat.txt", &rule, 0, false, &metadata);
    assert!(text.contains('-') && text.contains("20"));

    rule.rule_data.custom_text = "$(CREAT)".to_string();
    let text = rule_custom("wombat.txt", &rule, 0, false, &metadata);
    assert!(text.contains('-') && text.contains("20"));
}

fn custom(template: &str) -> SingleRule {
    SingleRule::custom(template)
}

#[test]
fn new_rule_is_custom_and_empty() {
    let rule = SingleRule::new();
    assert_eq!(rule.rule_type, RuleType::Custom);
    assert_eq!(rule.rule_place, RulePlace::NoPlace);
    assert_eq!(rule.rule_data.custom_text, "");
    assert!(rule.accepts_expansion());
    assert_eq!(rule_custom("wombat.txt", &rule, 0, false, &wombat()), "");
}

#[test]
fn custom_rule_carries_its_template() {
    let rule = custom("$(NAME)_$(N:1:1:2)");
    assert_eq!(rule.rule_type, RuleType::Custom);
    assert_eq!(rule.rule_place, RulePlace::NoPlace);
    assert_eq!(rule.rule_data.custom_text, "$(NAME)_$(N:1:1:2)");
    assert!(rule.accepts_expansion());
}

#[test]
fn other_rules_are_not_accepted() {
    let mut rule = custom("x");
    rule.rule_type = RuleType::Trim;
    assert!(!rule.accepts_expansion());
    rule.rule_type = RuleType::Custom;
    rule.rule_place = RulePlace::Name;
    assert!(!rule.accepts_expansion());
    rule.rule_type = RuleType::AddText;
    rule.rule_place = RulePlace::Extension;
    assert!(!rule.accepts_expansion());
    rule.rule_type = RuleType::Custom;
    rule.rule_place = RulePlace::NoPlace;
    assert!(rule.accepts_expansion());
}

#[test]
fn current_path_comes_back_at_every_position() {
    let rule = custom("$(CURR)");
    let paths = ["wombat.txt", "", "dir/sub/wombat.tar.gz", "$(N:", "$(N:1:2:)", "$(NAME).$(EXT)", "a b (1).txt"];
    for path in paths.iter() {
        for index in [0u64, 1, 2, 1000, u64::MAX] {
            for example in [false, true] {
                assert_eq!(rule_custom(path, &rule, index, example, &wombat()), *path);
            }
        }
    }
}

#[test]
fn counter_in_the_current_path_is_expanded() {
    let rule = custom("$(CURR)");
    assert_eq!(rule_custom("$(N:1:1:1)", &rule, 0, false, &wombat()), "1");
    assert_eq!(rule_custom("img$(N:1:1:3).png", &rule, 6, false, &wombat()), "img007.png");
}

#[test]
fn same_inputs_give_the_same_name() {
    let rule = custom("$(NAME)-$(EXT)-$(SIZE)-$(CREAT)-$(MODIF)-$(CURR)-$(N:3:7:5)");
    for example in [false, true] {
        let first = rule_custom("dir/wombat.txt", &rule, 9, example, &wombat());
        let second = rule_custom("dir/wombat.txt", &rule, 9, example, &wombat());
        assert_eq!(first, second);
    }
    assert_eq!(
        rule_custom("dir/wombat.txt", &rule, 9, false, &wombat()),
        "wombat-txt-2 B-2020-09-13 12:26:40-2020-09-13 12:27:40-dir/wombat.txt-00066"
    );
}

#[test]
fn preview_shows_fixed_size_and_times() {
    let rule = custom("$(SIZE)|$(CREAT)|$(MODIF)");
    let nothing = FileMetadata { created: None, modified: None, size: None };
    for metadata in [wombat(), nothing] {
        assert_eq!(
            rule_custom("wombat.txt", &rule, 0, true, &metadata),
            "2 KB|2021-01-31 08:42:12|2015-11-15 14:24:55"
        );
    }
}

#[test]
fn missing_metadata_gives_empty_text() {
    let rule = custom("$(NAME)-$(SIZE)-$(CREAT)-$(MODIF)-$(EXT)");
    let nothing = FileMetadata { created: None, modified: None, size: None };
    assert_eq!(rule_custom("wombat.txt", &rule, 0, false, &nothing), "wombat----txt");
    let no_times = FileMetadata { created: None, modified: None, size: Some(2) };
    assert_eq!(rule_custom("wombat.txt", &rule, 0, false, &no_times), "wombat-2 B---txt");
    let too_far = FileMetadata { created: Some(u64::MAX), modified: Some(0), size: None };
    assert_eq!(rule_custom("wombat.txt", &rule, 0, false, &too_far), "wombat---1970-01-01 00:00:00-txt");
}

#[test]
fn size_and_times_of_a_file() {
    let metadata = wombat();
    assert_eq!(rule_custom("wombat.txt", &custom("$(SIZE)"), 0, false, &metadata), "2 B");
    assert_eq!(rule_custom("wombat.txt", &custom("$(CREAT)"), 0, false, &metadata), "2020-09-13 12:26:40");
    assert_eq!(rule_custom("wombat.txt", &custom("$(MODIF)"), 0, false, &metadata), "2020-09-13 12:27:40");
}

#[test]
fn name_and_extension_of_the_file() {
    let metadata = wombat();
    assert_eq!(rule_custom("wombat.txt", &custom("$(NAME)"), 0, false, &metadata), "wombat");
    assert_eq!(rule_custom("wombat.txt", &custom("$(EXT)"), 0, false, &metadata), "txt");
    assert_eq!(rule_custom("dir/wombat", &custom("[$(NAME)][$(EXT)]"), 0, false, &metadata), "[wombat][]");
    assert_eq!(
        rule_custom("dir/wombat.tar.gz", &custom("$(N:1:1:2)_$(NAME).$(EXT)"), 4, false, &metadata),
        "05_wombat.tar.gz"
    );
}

#[test]
fn text_without_a_placeholder_is_its_own_name() {
    let metadata = wombat();
    for template in ["", "plain", "wombat (1).txt", "N:1:2:3)", "(NAME)", "a:b:c"] {
        for index in [0u64, 5, u64::MAX] {
            for example in [false, true] {
                assert_eq!(rule_custom("dir/wombat.txt", &custom(template), index, example, &metadata), template);
            }
        }
    }
}

#[test]
fn counter_written_from_its_numbers() {
    let metadata = wombat();
    for (start, step, zeropad, index) in [(20u64, 22u64, 4u64, 2u64), (0, 0, 0, 0), (1, 1, 60, 8), (u64::MAX, 1, 2, 1), (3, u64::MAX, 5, 2)] {
        let template = format!("$(N:{}:{}:{})", start, step, zeropad);
        let product = step.checked_mul(index).unwrap_or(0);
        let value = product.checked_add(start).unwrap_or(0);
        let width = std::cmp::min(zeropad, 50) as usize;
        let expected = format!("{:0>width$}", value, width = width);
        assert_eq!(rule_custom("wombat.txt", &custom(&template), index, false, &metadata), expected);
    }
}
