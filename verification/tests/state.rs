use search_select::{Filtered, SelectFilter, SelectState, Selection};

fn names() -> Vec<String> {
    vec![
        String::from("First"),
        String::from("Second"),
        String::from("Third"),
        String::from("Fourth"),
        String::from("Fifth"),
        String::from("Something else with \"first\""),
    ]
}

fn contains_ignoring_case(item: &String, input: &str) -> bool {
    item.to_lowercase().contains(&input.to_lowercase())
}

type Matcher = fn(&String, &str) -> bool;

fn state_with(selection: Selection) -> SelectState<String, Matcher> {
    SelectState::new(
        names(),
        selection,
        SelectFilter::new(contains_ignoring_case as Matcher),
    )
}

fn shown(state: &SelectState<String, Matcher>) -> Vec<(usize, bool, String)> {
    state
        .filtered_items()
        .into_iter()
        .map(|(index, selected, item)| (index, selected, item.clone()))
        .collect()
}

fn shown_indices(state: &SelectState<String, Matcher>) -> Vec<usize> {
    state
        .filtered_items()
        .into_iter()
        .map(|(index, _, _)| index)
        .collect()
}

fn chosen(state: &SelectState<String, Matcher>) -> Vec<(usize, String)> {
    state
        .selected_items()
        .into_iter()
        .map(|(index, item)| (index, item.clone()))
        .collect()
}

fn subset_of(state: &SelectState<String, Matcher>) -> Option<Vec<usize>> {
    match state.filtered() {
        Filtered::Subset(indices) => Some(indices.iter().copied().collect()),
        _ => None,
    }
}

#[test]
fn new_state_shows_everything() {
    let state = state_with(Selection::one(0));
    assert!(matches!(state.filtered(), Filtered::All));
    assert_eq!(state.query(), None);
    assert_eq!(shown_indices(&state), vec![0, 1, 2, 3, 4, 5]);
    assert!(matches!(state.selection(), Selection::AlwaysOne(0)));
    assert!(!state.is_multiple());
    assert!(!state.is_nullable());
}

#[test]
fn policies_of_the_state_follow_the_selection() {
    assert!(state_with(Selection::none()).is_nullable());
    assert!(!state_with(Selection::none()).is_multiple());
    assert!(state_with(Selection::empty()).is_nullable());
    assert!(state_with(Selection::empty()).is_multiple());
}

#[test]
fn get_and_iter_expose_the_options() {
    let state = state_with(Selection::none());
    assert_eq!(state.get(2), Some(&String::from("Third")));
    assert_eq!(state.get(5), Some(&String::from("Something else with \"first\"")));
    assert_eq!(state.get(6), None);
    let all: Vec<String> = state.iter().cloned().collect();
    assert_eq!(all, names());
}

#[test]
fn filter_first_keeps_both_matches_and_marks_the_selected_one() {
    let mut state = state_with(Selection::one(0));
    state.filter("first");
    assert_eq!(subset_of(&state), Some(vec![0, 5]));
    assert_eq!(
        shown(&state),
        vec![
            (0, true, String::from("First")),
            (5, false, String::from("Something else with \"first\"")),
        ]
    );
    assert_eq!(state.query(), Some("first"));
}

#[test]
fn select_select_deselect_leaves_the_other_selected() {
    let mut state = state_with(Selection::empty());
    assert!(state.select(1));
    assert!(state.select(3));
    assert!(state.deselect(1));
    assert_eq!(chosen(&state), vec![(3, String::from("Fourth"))]);
}

#[test]
fn reselecting_always_one_falls_back_to_the_first_option() {
    let mut state = state_with(Selection::one(2));
    let without_third = vec![
        String::from("First"),
        String::from("Second"),
        String::from("Fourth"),
        String::from("Fifth"),
    ];
    state.replace_options_reselecting(without_third, |a: &String, b: &String| a == b);
    assert!(matches!(state.selection(), Selection::AlwaysOne(0)));
    assert_eq!(chosen(&state), vec![(0, String::from("First"))]);
}

#[test]
fn filter_with_the_empty_text_shows_everything() {
    let mut state = state_with(Selection::none());
    state.filter("th");
    assert_eq!(subset_of(&state), Some(vec![2, 3, 4, 5]));
    state.filter("");
    assert!(matches!(state.filtered(), Filtered::All));
    assert_eq!(state.query(), None);
    assert_eq!(state.filtered_items().len(), 6);
    assert_eq!(shown_indices(&state), vec![0, 1, 2, 3, 4, 5]);
}

#[test]
fn filter_keeps_exactly_what_passes() {
    let mut state = state_with(Selection::none());
    state.filter("f");
    let expected: Vec<usize> = names()
        .iter()
        .enumerate()
        .filter(|(_, name)| contains_ignoring_case(name, "f"))
        .map(|(index, _)| index)
        .collect();
    assert_eq!(expected, vec![0, 3, 4, 5]);
    assert_eq!(subset_of(&state), Some(expected.clone()));
    assert_eq!(shown_indices(&state), expected);
}

#[test]
fn filter_that_nothing_passes_gives_nothing() {
    let mut state = state_with(Selection::one(0));
    state.filter("zzz");
    assert!(matches!(state.filtered(), Filtered::Nothing));
    assert!(state.filtered_items().is_empty());
    assert_eq!(state.get_filtered(0), None);
    assert_eq!(state.first_filtered(), None);
    assert_eq!(state.query(), Some("zzz"));
}

#[test]
fn filter_that_everything_passes_is_still_a_subset() {
    let mut state = state_with(Selection::none());
    state.filter("s");
    assert_eq!(subset_of(&state), Some(vec![0, 1, 5]));
    state.filter("i");
    assert_eq!(subset_of(&state), Some(vec![0, 2, 4, 5]));
    let mut short = SelectState::new(
        vec![String::from("aa"), String::from("ab")],
        Selection::none(),
        SelectFilter::new(contains_ignoring_case as Matcher),
    );
    short.filter("a");
    assert_eq!(subset_of(&short), Some(vec![0, 1]));
}

#[test]
fn a_new_filter_overwrites_the_last_one() {
    let mut state = state_with(Selection::none());
    state.filter("first");
    state.filter("second");
    assert_eq!(subset_of(&state), Some(vec![1]));
    assert_eq!(state.query(), Some("second"));
}

#[test]
fn get_filtered_zero_is_the_smallest_passing_index() {
    let mut state = state_with(Selection::none());
    state.filter("fi");
    assert_eq!(subset_of(&state), Some(vec![0, 4, 5]));
    assert_eq!(state.get_filtered(0), Some((0, &String::from("First"))));
    state.filter("fo");
    assert_eq!(state.get_filtered(0), Some((3, &String::from("Fourth"))));
    assert_eq!(state.first_filtered(), Some((3, &String::from("Fourth"))));
    state.filter("nothing like it");
    assert_eq!(state.get_filtered(0), None);
}

#[test]
fn get_filtered_maps_a_position_to_its_index() {
    let mut state = state_with(Selection::none());
    assert_eq!(state.get_filtered(4), Some((4, &String::from("Fifth"))));
    assert_eq!(state.get_filtered(6), None);
    assert_eq!(state.first_filtered(), Some((0, &String::from("First"))));
    state.filter("th");
    assert_eq!(state.get_filtered(0), Some((2, &String::from("Third"))));
    assert_eq!(state.get_filtered(1), Some((3, &String::from("Fourth"))));
    assert_eq!(state.get_filtered(2), Some((4, &String::from("Fifth"))));
    assert_eq!(
        state.get_filtered(3),
        Some((5, &String::from("Something else with \"first\"")))
    );
    assert_eq!(state.get_filtered(4), None);
}

#[test]
fn first_filtered_of_no_options_is_nothing() {
    let state: SelectState<String, Matcher> = SelectState::new(
        Vec::new(),
        Selection::none(),
        SelectFilter::new(contains_ignoring_case as Matcher),
    );
    assert_eq!(state.first_filtered(), None);
    assert_eq!(state.get_filtered(0), None);
    assert!(state.filtered_items().is_empty());
}

#[test]
fn unfilter_restores_the_whole_list() {
    for query in ["first", "zzz", "", "s"] {
        let mut state = state_with(Selection::one(1));
        state.filter(query);
        state.unfilter();
        assert!(matches!(state.filtered(), Filtered::All));
        assert_eq!(state.query(), None);
        let all: Vec<(usize, bool, String)> = names()
            .into_iter()
            .enumerate()
            .map(|(index, name)| (index, index == 1, name))
            .collect();
        assert_eq!(shown(&state), all);
    }
}

#[test]
fn select_out_of_range_changes_nothing() {
    let mut state = state_with(Selection::one(0));
    assert!(!state.select(6));
    assert!(!state.select(usize::MAX));
    assert!(matches!(state.selection(), Selection::AlwaysOne(0)));
    let mut many = state_with(Selection::empty());
    assert!(!many.select(6));
    assert!(many.selected_items().is_empty());
    assert!(!many.deselect(6));
}

#[test]
fn select_reports_change() {
    let mut state = state_with(Selection::one(0));
    assert!(!state.select(0));
    assert!(state.select(5));
    assert_eq!(chosen(&state), vec![(5, String::from("Something else with \"first\""))]);
    assert!(!state.deselect(5));
    assert!(!state.clear());
    assert_eq!(chosen(&state), vec![(5, String::from("Something else with \"first\""))]);
}

#[test]
fn nullable_state_selects_deselects_and_clears() {
    let mut state = state_with(Selection::none());
    assert_eq!(state.first_selected(), None);
    assert!(state.select(2));
    assert_eq!(state.first_selected(), Some((2, &String::from("Third"))));
    assert!(!state.deselect(1));
    assert!(state.deselect(2));
    assert_eq!(state.first_selected(), None);
    assert!(state.select(4));
    assert!(state.clear());
    assert!(!state.clear());
    assert!(state.selected_items().is_empty());
}

#[test]
fn selected_items_come_in_ascending_order() {
    let mut state = state_with(Selection::empty());
    assert!(state.select(4));
    assert!(state.select(0));
    assert!(state.select(2));
    assert!(!state.select(2));
    assert_eq!(
        chosen(&state),
        vec![
            (0, String::from("First")),
            (2, String::from("Third")),
            (4, String::from("Fifth")),
        ]
    );
    assert_eq!(state.first_selected(), Some((0, &String::from("First"))));
    assert!(state.clear());
    assert_eq!(state.first_selected(), None);
}

#[test]
fn a_selected_index_without_an_option_is_left_out() {
    let state = state_with(Selection::multiple(vec![1, 9, 40]));
    assert_eq!(chosen(&state), vec![(1, String::from("Second"))]);
    assert_eq!(state.first_selected(), Some((1, &String::from("Second"))));
    let lost = state_with(Selection::one(6));
    assert!(lost.selected_items().is_empty());
    assert_eq!(lost.first_selected(), None);
    let far = state_with(Selection::multiple(vec![7, 8]));
    assert!(far.selected_items().is_empty());
    assert_eq!(far.first_selected(), None);
}

#[test]
fn filtered_items_mark_what_is_selected() {
    let mut state = state_with(Selection::multiple(vec![3, 5]));
    state.filter("f");
    assert_eq!(
        shown(&state),
        vec![
            (0, false, String::from("First")),
            (3, true, String::from("Fourth")),
            (4, false, String::from("Fifth")),
            (5, true, String::from("Something else with \"first\"")),
        ]
    );
}

#[test]
fn selection_does_not_depend_on_the_filter() {
    let mut state = state_with(Selection::empty());
    state.filter("first");
    assert!(state.select(1));
    assert_eq!(chosen(&state), vec![(1, String::from("Second"))]);
    assert_eq!(shown_indices(&state), vec![0, 5]);
}

#[test]
fn replace_options_starts_the_selection_over() {
    let fewer = vec![String::from("Alpha"), String::from("Beta")];
    let mut always = state_with(Selection::one(4));
    always.replace_options(fewer.clone());
    assert!(matches!(always.selection(), Selection::AlwaysOne(0)));
    assert_eq!(chosen(&always), vec![(0, String::from("Alpha"))]);
    let mut maybe = state_with(Selection::some(1));
    maybe.replace_options(fewer.clone());
    assert!(matches!(maybe.selection(), Selection::MaybeOne(None)));
    let mut many = state_with(Selection::multiple(vec![0, 1]));
    many.replace_options(fewer);
    assert!(matches!(many.selection(), Selection::Multiple(_)));
    assert!(many.selection().is_empty());
    assert_eq!(shown_indices(&many), vec![0, 1]);
    assert!(matches!(many.filtered(), Filtered::All));
}

#[test]
fn replace_options_with_nothing_keeps_index_zero_selected_and_hidden() {
    let mut state = state_with(Selection::one(3));
    state.replace_options(Vec::new());
    assert!(matches!(state.selection(), Selection::AlwaysOne(0)));
    assert!(state.selected_items().is_empty());
    assert_eq!(state.first_selected(), None);
    assert!(state.filtered_items().is_empty());
}

#[test]
fn replace_options_applies_the_active_search_text_to_the_new_options() {
    let mut state = state_with(Selection::none());
    state.filter("first");
    state.replace_options(vec![
        String::from("Zero"),
        String::from("The first"),
        String::from("One"),
        String::from("FIRST of all"),
    ]);
    assert_eq!(state.query(), Some("first"));
    assert_eq!(subset_of(&state), Some(vec![1, 3]));
    state.replace_options(vec![String::from("Zero"), String::from("One")]);
    assert!(matches!(state.filtered(), Filtered::Nothing));
    assert_eq!(state.query(), Some("first"));
    state.unfilter();
    assert_eq!(shown_indices(&state), vec![0, 1]);
}

#[test]
fn reselecting_finds_the_selected_options_again() {
    let reordered = vec![
        String::from("Fifth"),
        String::from("Third"),
        String::from("First"),
        String::from("Third"),
    ];
    let same = |a: &String, b: &String| a == b;
    let mut always = state_with(Selection::one(2));
    always.replace_options_reselecting(reordered.clone(), same);
    assert!(matches!(always.selection(), Selection::AlwaysOne(1)));
    let mut maybe = state_with(Selection::some(4));
    maybe.replace_options_reselecting(reordered.clone(), same);
    assert!(matches!(maybe.selection(), Selection::MaybeOne(Some(0))));
    let mut none = state_with(Selection::none());
    none.replace_options_reselecting(reordered.clone(), same);
    assert!(matches!(none.selection(), Selection::MaybeOne(None)));
    let mut many = state_with(Selection::multiple(vec![0, 1, 2, 4]));
    many.replace_options_reselecting(reordered, same);
    assert_eq!(
        chosen(&many),
        vec![
            (0, String::from("Fifth")),
            (1, String::from("Third")),
            (2, String::from("First")),
        ]
    );
}

#[test]
fn reselecting_drops_what_is_not_found() {
    let others = vec![String::from("Sixth"), String::from("Second")];
    let same = |a: &String, b: &String| a == b;
    let mut maybe = state_with(Selection::some(0));
    maybe.replace_options_reselecting(others.clone(), same);
    assert!(matches!(maybe.selection(), Selection::MaybeOne(None)));
    let mut many = state_with(Selection::multiple(vec![0, 1, 3]));
    many.replace_options_reselecting(others.clone(), same);
    assert_eq!(chosen(&many), vec![(1, String::from("Second"))]);
    let mut gone = state_with(Selection::multiple(vec![0, 3]));
    gone.replace_options_reselecting(others, same);
    assert!(gone.selection().is_empty());
    assert!(matches!(gone.selection(), Selection::Multiple(_)));
}

#[test]
fn reselecting_several_options_onto_one_selects_it_once() {
    let same_initial = |a: &String, b: &String| a.chars().next() == b.chars().next();
    let mut many = state_with(Selection::multiple(vec![0, 3, 4]));
    many.replace_options_reselecting(
        vec![String::from("Sand"), String::from("Fog"), String::from("Fig")],
        same_initial,
    );
    assert_eq!(chosen(&many), vec![(1, String::from("Fog"))]);
    assert_eq!(many.selection().len(), 1);
}

#[test]
fn reselecting_ignores_a_selected_index_without_an_option() {
    let same = |a: &String, b: &String| a == b;
    let mut lost = state_with(Selection::one(17));
    lost.replace_options_reselecting(names(), same);
    assert!(matches!(lost.selection(), Selection::AlwaysOne(0)));
    let mut maybe = state_with(Selection::some(17));
    maybe.replace_options_reselecting(names(), same);
    assert!(matches!(maybe.selection(), Selection::MaybeOne(None)));
}

#[test]
fn reselecting_applies_the_active_search_text_to_the_new_options() {
    let same = |a: &String, b: &String| a == b;
    let mut state = state_with(Selection::one(5));
    state.filter("first");
    state.replace_options_reselecting(
        vec![
            String::from("Second"),
            String::from("Something else with \"first\""),
        ],
        same,
    );
    assert!(matches!(state.selection(), Selection::AlwaysOne(1)));
    assert_eq!(
        shown(&state),
        vec![(1, true, String::from("Something else with \"first\""))]
    );
}
