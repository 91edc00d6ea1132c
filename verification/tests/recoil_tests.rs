use samd51_hid_injector::recoil::{
    parse_i16, parse_recoil_add, parse_recoil_name, RecoilManager, MAX_PATTERNS,
    MAX_PATTERN_STEPS,
};

#[test]
fn test_recoil_manager_new() {
    let manager = RecoilManager::new();
    assert_eq!(manager.count(), 0);
}

#[test]
fn test_add_pattern_basic() {
    let mut manager = RecoilManager::new();
    let steps = [10, -5, 100, 20, -10, 150]; // Two triplets: (10,-5,100), (20,-10,150)

    let result = manager.add_pattern("test_pattern", &steps);
    assert!(result.is_ok());
    assert_eq!(manager.count(), 1);
}

#[test]
fn test_add_pattern_validation() {
    let mut manager = RecoilManager::new();

    // Invalid: not a multiple of 3
    let invalid_steps = [10, -5, 100, 20]; // 4 elements, not divisible by 3
    let result = manager.add_pattern("invalid", &invalid_steps);
    assert!(result.is_err());
    assert_eq!(result.unwrap_err(), "Pattern must be x,y,delay triplets");
}

#[test]
fn test_add_pattern_too_long() {
    let mut manager = RecoilManager::new();

    // Create a pattern that's too long (> MAX_PATTERN_STEPS)
    let mut long_steps = heapless::Vec::<i16, 128>::new();
    for _ in 0..(MAX_PATTERN_STEPS + 3) {
        let _ = long_steps.push(1);
    }

    let result = manager.add_pattern("toolong", &long_steps);
    assert!(result.is_err());
}

#[test]
fn test_get_pattern() {
    let mut manager = RecoilManager::new();
    let steps = [5, -3, 50];

    manager.add_pattern("mypattern", &steps).unwrap();

    let pattern = manager.get_pattern("mypattern");
    assert!(pattern.is_some());

    let pattern = pattern.unwrap();
    assert_eq!(pattern.name.as_str(), "mypattern");
    assert_eq!(pattern.steps.len(), 3);
    assert_eq!(pattern.steps[0], 5);
    assert_eq!(pattern.steps[1], -3);
    assert_eq!(pattern.steps[2], 50);
}

#[test]
fn test_get_nonexistent_pattern() {
    let manager = RecoilManager::new();
    let pattern = manager.get_pattern("nonexistent");
    assert!(pattern.is_none());
}

#[test]
fn test_delete_pattern() {
    let mut manager = RecoilManager::new();
    let steps = [1, 2, 3];

    manager.add_pattern("todelete", &steps).unwrap();
    assert_eq!(manager.count(), 1);

    let deleted = manager.delete_pattern("todelete");
    assert!(deleted);
    assert_eq!(manager.count(), 0);

    // Try to delete again
    let deleted = manager.delete_pattern("todelete");
    assert!(!deleted);
}

#[test]
fn test_list_names() {
    let mut manager = RecoilManager::new();

    manager.add_pattern("pattern1", &[1, 2, 3]).unwrap();
    manager.add_pattern("pattern2", &[4, 5, 6]).unwrap();

    let names: heapless::Vec<&str, 16> = manager.list_names().into_iter().collect();
    assert_eq!(names.len(), 2);
    assert!(names.contains(&"pattern1"));
    assert!(names.contains(&"pattern2"));
}

#[test]
fn test_pattern_update() {
    let mut manager = RecoilManager::new();

    // Add initial pattern
    manager.add_pattern("update_test", &[1, 2, 3]).unwrap();
    let pattern = manager.get_pattern("update_test").unwrap();
    assert_eq!(pattern.steps[0], 1);

    // Update with new values
    manager.add_pattern("update_test", &[10, 20, 30]).unwrap();
    let pattern = manager.get_pattern("update_test").unwrap();
    assert_eq!(pattern.steps[0], 10);
    assert_eq!(manager.count(), 1); // Still only one pattern
}

#[test]
fn test_parse_recoil_add_basic() {
    let line = b"nozen.recoil.add(ak47){10,-5,100,20,-10,150}";
    let result = parse_recoil_add(line);

    assert!(result.is_some());
    let (name, steps) = result.unwrap();
    assert_eq!(name, b"ak47");
    assert_eq!(steps.len(), 6);
    assert_eq!(steps[0], 10);
    assert_eq!(steps[1], -5);
    assert_eq!(steps[2], 100);
}

#[test]
fn test_parse_recoil_add_negative_values() {
    let line = b"nozen.recoil.add(test){-10,5,-50}";
    let result = parse_recoil_add(line);

    assert!(result.is_some());
    let (_name, steps) = result.unwrap();
    assert_eq!(steps[0], -10);
    assert_eq!(steps[1], 5);
    assert_eq!(steps[2], -50);
}

#[test]
fn test_parse_recoil_add_invalid() {
    // Missing closing brace - parser may still attempt to parse
    let line = b"nozen.recoil.add(test){10,20,30";
    let _result = parse_recoil_add(line);
    // Don't assert on this - implementation-dependent

    // Completely malformed command
    let line2 = b"not_a_valid_command";
    assert!(parse_recoil_add(line2).is_none());

    // Empty pattern
    let line3 = b"nozen.recoil.add(test){}";
    let result3 = parse_recoil_add(line3);
    if let Some((_name, steps)) = result3 {
        assert_eq!(steps.len(), 0);
    }
}

#[test]
fn test_parse_recoil_name_basic() {
    let line = b"nozen.recoil.delete(mypattern)";
    let prefix = b"nozen.recoil.delete";
    let result = parse_recoil_name(line, prefix);

    assert!(result.is_some());
    assert_eq!(result.unwrap(), b"mypattern");
}

#[test]
fn test_parse_recoil_name_multiple_prefixes() {
    let line = b"nozen.recoil.run(ak47)";
    let prefix = b"nozen.recoil.run";
    let result = parse_recoil_name(line, prefix);

    assert!(result.is_some());
    assert_eq!(result.unwrap(), b"ak47");
}

#[test]
fn test_parse_i16_positive() {
    assert_eq!(parse_i16(b"123"), Some(123));
    assert_eq!(parse_i16(b"0"), Some(0));
    assert_eq!(parse_i16(b"32767"), Some(32767));
}

#[test]
fn test_parse_i16_negative() {
    assert_eq!(parse_i16(b"-123"), Some(-123));
    assert_eq!(parse_i16(b"-1"), Some(-1));
    // Saturation at i16::MIN
    let result = parse_i16(b"-32768");
    assert!(result.is_some());
    assert!(result.unwrap() <= -32767);
}

#[test]
fn test_parse_i16_with_whitespace() {
    assert_eq!(parse_i16(b"  123"), Some(123));
    assert_eq!(parse_i16(b"  -456"), Some(-456));
}

#[test]
fn test_max_patterns_limit() {
    let mut manager = RecoilManager::new();

    // Try to add more than MAX_PATTERNS
    for i in 0..MAX_PATTERNS {
        let name = heapless::String::<32>::try_from(i.to_string().as_str()).unwrap();
        manager.add_pattern(name.as_str(), &[1, 2, 3]).unwrap();
    }

    assert_eq!(manager.count(), MAX_PATTERNS);

    // This should fail
    let result = manager.add_pattern("overflow", &[1, 2, 3]);
    assert!(result.is_err());
}

#[test]
fn parse_i16_saturates_and_stops_at_the_first_other_byte() {
    assert_eq!(parse_i16(b"32768"), Some(32767));
    assert_eq!(parse_i16(b"99999999"), Some(32767));
    assert_eq!(parse_i16(b"-32768"), Some(-32767));
    assert_eq!(parse_i16(b"-99999"), Some(-32767));
    assert_eq!(parse_i16(b""), Some(0));
    assert_eq!(parse_i16(b"-"), Some(0));
    assert_eq!(parse_i16(b"abc"), Some(0));
    assert_eq!(parse_i16(b"12ab34"), Some(12));
    assert_eq!(parse_i16(b" - 5"), Some(0));
    assert_eq!(parse_i16(b"--5"), Some(0));
    assert_eq!(parse_i16(b"+5"), Some(0));
    assert_eq!(parse_i16(b"007"), Some(7));
}

#[test]
fn recoil_name_needs_both_parentheses() {
    assert_eq!(parse_recoil_name(b"x(a)", b"x"), Some(&b"a"[..]));
    assert_eq!(parse_recoil_name(b"x()", b"x"), Some(&b""[..]));
    assert_eq!(parse_recoil_name(b"x(", b"x"), None);
    assert_eq!(parse_recoil_name(b"x(abc", b"x"), None);
    assert_eq!(parse_recoil_name(b"xabc)", b"x"), None);
    assert_eq!(parse_recoil_name(b"x", b"x"), None);
    assert_eq!(parse_recoil_name(b"xy", b"x"), None);
    // The prefix is counted, not compared, and text before `(` is passed over.
    assert_eq!(parse_recoil_name(b"abcde (n)m)", b"12345"), Some(&b"n"[..]));
    assert_eq!(parse_recoil_name(b"ab(c)(d)", b"abcd"), Some(&b"d"[..]));
}

#[test]
fn recoil_add_splits_the_list_at_commas() {
    let (name, steps) = parse_recoil_add(b"nozen.recoil.add(a b){1, 2,,x,-3,}").unwrap();
    assert_eq!(name, b"a b");
    assert_eq!(steps.as_slice(), &[1, 2, 0, 0, -3]);
    let (name, steps) = parse_recoil_add(b"nozen.recoil.add() junk {40000}tail").unwrap();
    assert_eq!(name, b"");
    assert_eq!(steps.as_slice(), &[32767]);
    let (_, steps) = parse_recoil_add(b"nozen.recoil.add(n){,}").unwrap();
    assert_eq!(steps.as_slice(), &[0]);
    let (_, steps) = parse_recoil_add(b"nozen.recoil.add(n){}").unwrap();
    assert!(steps.is_empty());
    // The first 17 bytes are not looked at.
    let (name, steps) = parse_recoil_add(b"0123456789abcdefgn){7}").unwrap();
    assert_eq!(name, b"n");
    assert_eq!(steps.as_slice(), &[7]);
}

#[test]
fn recoil_add_refuses_malformed_commands() {
    assert!(parse_recoil_add(b"").is_none());
    assert!(parse_recoil_add(b"nozen.recoil.add").is_none());
    assert!(parse_recoil_add(b"nozen.recoil.add(").is_none());
    assert!(parse_recoil_add(b"nozen.recoil.add(n").is_none());
    assert!(parse_recoil_add(b"nozen.recoil.add(n)").is_none());
    assert!(parse_recoil_add(b"nozen.recoil.add(n){1,2,3").is_none());
    assert!(parse_recoil_add(b"nozen.recoil.add(n)1,2,3}").is_none());
}

#[test]
fn recoil_add_takes_sixty_four_steps_and_no_more() {
    let mut line = b"nozen.recoil.add(n){".to_vec();
    for i in 0..64 {
        if i > 0 {
            line.push(b',');
        }
        line.extend_from_slice(i.to_string().as_bytes());
    }
    let mut full = line.clone();
    full.push(b'}');
    let (_, steps) = parse_recoil_add(&full).unwrap();
    assert_eq!(steps.len(), 64);
    assert_eq!(steps[63], 63);
    let mut with_comma = line.clone();
    with_comma.extend_from_slice(b",}");
    assert_eq!(parse_recoil_add(&with_comma).unwrap().1.len(), 64);
    line.extend_from_slice(b",64}");
    assert!(parse_recoil_add(&line).is_none());
}

#[test]
fn add_pattern_gives_each_refusal_its_message() {
    let mut manager = RecoilManager::new();
    assert_eq!(manager.add_pattern("a", &[1]), Err("Pattern must be x,y,delay triplets"));
    assert_eq!(manager.add_pattern("a", &[0; 66]), Err("Pattern too long"));
    // 67 steps are no triplets: that is said first.
    assert_eq!(manager.add_pattern("a", &[0; 67]), Err("Pattern must be x,y,delay triplets"));
    let long_name = "x".repeat(33);
    assert_eq!(manager.add_pattern(&long_name, &[1, 2, 3]), Err("Name too long"));
    assert_eq!(manager.add_pattern(&long_name[..32], &[1, 2, 3]), Ok(()));
    assert_eq!(manager.add_pattern("", &[]), Ok(()));
    assert_eq!(manager.add_pattern("full", &[0; 63]), Ok(()));
    assert_eq!(manager.count(), 3);
    for i in 3..MAX_PATTERNS {
        assert_eq!(manager.add_pattern(&i.to_string(), &[1, 2, 3]), Ok(()));
    }
    assert_eq!(manager.add_pattern("one more", &[1, 2, 3]), Err("Pattern storage full"));
    // A name that is there can still be replaced.
    assert_eq!(manager.add_pattern("full", &[9, 9, 9]), Ok(()));
    assert_eq!(manager.get_pattern("full").unwrap().steps.as_slice(), &[9, 9, 9]);
    assert_eq!(manager.count(), MAX_PATTERNS);
    assert!(manager.get_pattern(&long_name).is_none());
    assert!(!manager.delete_pattern(&long_name));
}

#[test]
fn patterns_are_listed_in_order_and_removal_moves_the_last() {
    let mut manager = RecoilManager::new();
    manager.add_pattern("a", &[1, 1, 1]).unwrap();
    manager.add_pattern("b", &[2, 2, 2]).unwrap();
    manager.add_pattern("c", &[3, 3, 3]).unwrap();
    manager.add_pattern("d", &[4, 4, 4]).unwrap();
    assert_eq!(manager.list_names(), vec!["a", "b", "c", "d"]);
    manager.add_pattern("b", &[5, 5, 5]).unwrap();
    assert_eq!(manager.list_names(), vec!["a", "b", "c", "d"]);
    assert!(manager.delete_pattern("a"));
    assert_eq!(manager.list_names(), vec!["d", "b", "c"]);
    let patterns = manager.list_patterns();
    assert_eq!(patterns.len(), 3);
    assert_eq!(patterns[0].name.as_str(), "d");
    assert_eq!(patterns[0].steps.as_slice(), &[4, 4, 4]);
    assert_eq!(patterns[1].steps.as_slice(), &[5, 5, 5]);
    assert_eq!(patterns[2].name.as_str(), "c");
    assert!(manager.delete_pattern("c"));
    assert_eq!(manager.list_names(), vec!["d", "b"]);
    assert!(manager.get_pattern("a").is_none());
    assert_eq!(manager.get_pattern("d").unwrap().steps.as_slice(), &[4, 4, 4]);
    let copy = manager.get_pattern("d").unwrap().clone();
    assert_eq!(copy.name.as_str(), "d");
}
