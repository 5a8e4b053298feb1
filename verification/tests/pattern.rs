use syne::pattern::{char_position, locate_groups};
use syne::template::{cut, expand, push_joined, substitute};
use syne::text_map::TextMap;

fn chars(s: &str) -> Vec<char> {
    s.chars().collect()
}

fn text(chars: &[char]) -> String {
    chars.iter().collect()
}

#[test]
fn byte_offsets_map_to_character_positions() {
    let sample = chars("aé𝄞b");
    assert_eq!(char_position(&sample, 0, 0, 0), Some(0));
    assert_eq!(char_position(&sample, 0, 0, 1), Some(1));
    assert_eq!(char_position(&sample, 0, 0, 3), Some(2));
    assert_eq!(char_position(&sample, 0, 0, 7), Some(3));
    assert_eq!(char_position(&sample, 0, 0, 8), Some(4));
    assert_eq!(char_position(&sample, 2, 3, 7), Some(3));
    assert_eq!(char_position(&sample, 4, 8, 8), Some(4));
    assert_eq!(char_position(&chars(""), 0, 0, 0), Some(0));
}

#[test]
fn offsets_inside_a_character_or_out_of_the_text_have_no_position() {
    let sample = chars("aé𝄞b");
    assert_eq!(char_position(&sample, 0, 0, 2), None);
    assert_eq!(char_position(&sample, 0, 0, 4), None);
    assert_eq!(char_position(&sample, 0, 0, 5), None);
    assert_eq!(char_position(&sample, 0, 0, 6), None);
    assert_eq!(char_position(&sample, 0, 0, 9), None);
    assert_eq!(char_position(&sample, 0, 0, usize::MAX), None);
    assert_eq!(char_position(&sample, 2, 3, 1), None);
    assert_eq!(char_position(&chars(""), 0, 0, 1), None);
}

#[test]
fn the_groups_of_a_match_become_character_spans() {
    let sample = chars("aé{{x}}");
    let groups = vec![Some((3, 8)), Some((5, 6))];
    let found = locate_groups(&sample, &groups, 2, 0, 0).expect("the groups fit");
    assert_eq!(found.spans, vec![(2, 7), (4, 5)]);
    assert_eq!(found.end_offset, 8);
    let found = locate_groups(&sample, &groups, 1, 2, 3).expect("the whole match fits");
    assert_eq!(found.spans, vec![(2, 7)]);
    let empty_group = vec![Some((3, 8)), Some((5, 5))];
    let found = locate_groups(&sample, &empty_group, 2, 0, 0).expect("a group may be empty");
    assert_eq!(found.spans, vec![(2, 7), (4, 4)]);
}

#[test]
fn groups_that_do_not_fit_are_refused() {
    let sample = chars("aé{{x}}");
    let fits = |groups: Vec<Option<(usize, usize)>>, count: usize, pos: usize, offset: usize| {
        locate_groups(&sample, &groups, count, pos, offset).is_some()
    };
    assert!(fits(vec![Some((3, 8)), Some((5, 6))], 2, 0, 0));
    assert!(!fits(vec![Some((3, 8)), Some((5, 6))], 0, 0, 0));
    assert!(!fits(vec![Some((3, 8)), Some((5, 6))], 3, 0, 0));
    assert!(!fits(vec![], 1, 0, 0));
    assert!(!fits(vec![None, Some((5, 6))], 2, 0, 0));
    assert!(!fits(vec![Some((3, 8)), None], 2, 0, 0));
    assert!(!fits(vec![Some((3, 3)), Some((3, 3))], 2, 0, 0));
    assert!(!fits(vec![Some((2, 8)), Some((5, 6))], 2, 0, 0));
    assert!(!fits(vec![Some((3, 9)), Some((5, 6))], 2, 0, 0));
    assert!(!fits(vec![Some((8, 3)), Some((5, 6))], 2, 0, 0));
    assert!(!fits(vec![Some((3, 8)), Some((1, 6))], 2, 0, 0));
    assert!(!fits(vec![Some((3, 6)), Some((5, 7))], 2, 0, 0));
    assert!(!fits(vec![Some((3, 8)), Some((6, 5))], 2, 0, 0));
    assert!(!fits(vec![Some((3, 8)), Some((5, 6))], 2, 3, 4));
}

#[test]
fn tokens_are_replaced_where_the_matches_say() {
    let sample = chars("é{{a}}-{{ b }}!");
    let matches = vec![
        vec![Some((2, 7)), Some((4, 5))],
        vec![Some((8, 15)), Some((11, 12))],
    ];
    let mut variables: TextMap<String> = TextMap::new();
    variables.set("a", "1");
    assert_eq!(text(&substitute(&sample, &matches, &variables)), "é1-{{ b }}!");
    variables.set("b", "22");
    assert_eq!(text(&substitute(&sample, &matches, &variables)), "é1-22!");
    assert_eq!(text(&substitute(&sample, &vec![], &variables)), "é{{a}}-{{ b }}!");
}

#[test]
fn the_first_match_that_does_not_fit_ends_the_replacing() {
    let sample = chars("{{a}}{{a}}{{a}}");
    let mut variables: TextMap<String> = TextMap::new();
    variables.set("a", "x");
    let overlapping = vec![
        vec![Some((0, 5)), Some((2, 3))],
        vec![Some((4, 10)), Some((7, 8))],
        vec![Some((10, 15)), Some((12, 13))],
    ];
    assert_eq!(text(&substitute(&sample, &overlapping, &variables)), "x{{a}}{{a}}");
    let without_name = vec![vec![Some((0, 5))], vec![Some((5, 10)), Some((7, 8))]];
    assert_eq!(text(&substitute(&sample, &without_name, &variables)), "{{a}}{{a}}{{a}}");
}

#[test]
fn a_text_is_cut_at_its_matches_and_joined_again() {
    let sample = chars("a--b--c");
    let matches = vec![vec![Some((1, 3))], vec![Some((4, 6))]];
    let pieces = cut(&sample, &matches);
    assert_eq!(pieces, vec![chars("a"), chars("b"), chars("c")]);
    let mut out = chars(">");
    push_joined(&mut out, &pieces, &chars("+"));
    assert_eq!(text(&out), ">a+b+c");
    assert_eq!(cut(&sample, &vec![]), vec![chars("a--b--c")]);
    assert_eq!(cut(&sample, &vec![vec![Some((0, 7))]]), vec![chars(""), chars("")]);
    let out_of_order = vec![vec![Some((4, 6))], vec![Some((1, 3))]];
    assert_eq!(cut(&sample, &out_of_order), vec![chars("a--b"), chars("c")]);
    let mut out = Vec::new();
    push_joined(&mut out, &vec![], &chars("+"));
    assert_eq!(text(&out), "");
}

#[test]
fn blocks_are_expanded_where_the_matches_say() {
    let sample = chars("<FOR x IN xs:[{{x}}]END>");
    let matches = vec![vec![Some((1, 23)), Some((5, 6)), Some((10, 12)), Some((13, 20))]];
    let mut lists: TextMap<Vec<String>> = TextMap::new();
    assert_eq!(text(&expand(&sample, &matches, &lists)), "<>");
    lists.insert("xs", vec!["1".to_string(), "2".to_string()]);
    assert_eq!(text(&expand(&sample, &matches, &lists)), "<[1][2]>");
    let three_groups = vec![vec![Some((1, 23)), Some((5, 6)), Some((10, 12))]];
    assert_eq!(text(&expand(&sample, &three_groups, &lists)), "<FOR x IN xs:[{{x}}]END>");
}
