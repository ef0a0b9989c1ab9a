use search_select::{filter, SelectDisplay, SelectFilter};

#[test]
fn select_filter_calls_its_function() {
    let starts_with = SelectFilter::new(|item: &String, input: &str| item.starts_with(input));
    assert!(starts_with.call(&String::from("First"), "Fi"));
    assert!(!starts_with.call(&String::from("First"), "Se"));
    assert!(starts_with.call(&String::from("First"), ""));
}

#[test]
fn select_filter_clone_shares_the_function() {
    let longer = SelectFilter::new(|item: &u32, input: &str| *item as usize > input.len());
    let copy = longer.clone();
    assert_eq!(longer.call(&3, "ab"), copy.call(&3, "ab"));
    assert_eq!(longer.call(&1, "ab"), copy.call(&1, "ab"));
    assert!(copy.call(&3, "ab"));
    assert!(!copy.call(&1, "ab"));
}

#[test]
fn filter_wraps_a_function() {
    let contains = filter(|item: &String, input: &str| item.contains(input));
    assert!(contains.call(&String::from("Second"), "con"));
    assert!(!contains.call(&String::from("Second"), "xyz"));
}

#[test]
fn select_display_calls_its_function() {
    let shout = SelectDisplay::new(|item: &String| item.to_uppercase());
    assert_eq!(shout.call(&String::from("Third")), "THIRD");
    let number = SelectDisplay::new(|item: &u32| format!("#{}", item));
    assert_eq!(number.call(&7), "#7");
}

#[test]
fn select_display_clone_shares_the_function() {
    let shout = SelectDisplay::new(|item: &String| item.to_uppercase());
    let copy = shout.clone();
    assert_eq!(copy.call(&String::from("a")), shout.call(&String::from("a")));
    assert_eq!(copy.call(&String::from("a")), "A");
}

#[test]
fn select_filter_from_a_function() {
    let starts_with = SelectFilter::from(|item: &String, input: &str| item.starts_with(input));
    assert!(starts_with.call(&String::from("First"), "Fi"));
    assert!(!starts_with.call(&String::from("First"), "Se"));
}

#[test]
fn select_display_from_a_function() {
    let length = SelectDisplay::from(|item: &String| item.len().to_string());
    assert_eq!(length.call(&String::from("Third")), "5");
}
