use map_info::app::duplicates::find_duplicates;
use map_info::search::FileCodes;

fn file(name: &str, codes: &[&str]) -> FileCodes {
    FileCodes { name: name.to_string(), codes: codes.iter().map(|s| s.to_string()).collect() }
}

fn groups(v: Vec<Vec<String>>) -> Vec<Vec<&'static str>> {
    v.into_iter()
        .map(|g| g.into_iter().map(|s| &*Box::leak(s.into_boxed_str())).collect())
        .collect()
}

#[test]
fn duplicates_chain_into_one_group() {
    // b shares c1m1 with a, c shares c2m1 with b: one group of three
    let files = vec![
        file("c.vpk", &["c2m1"]),
        file("a.vpk", &["c1m1"]),
        file("b.vpk", &["c1m1", "c2m1"]),
        file("d.vpk", &["c9m1"]),
    ];
    assert_eq!(groups(find_duplicates(&files)), vec![vec!["a.vpk", "b.vpk", "c.vpk"]]);
}

#[test]
fn duplicates_separate_groups_sorted_by_first_name() {
    let files = vec![
        file("z.vpk", &["m2"]),
        file("y.vpk", &["m1"]),
        file("b.vpk", &["m2"]),
        file("x.vpk", &["m1"]),
    ];
    assert_eq!(
        groups(find_duplicates(&files)),
        vec![vec!["b.vpk", "z.vpk"], vec!["x.vpk", "y.vpk"]]
    );
}

#[test]
fn duplicates_repeat_within_one_file_is_no_group() {
    let files = vec![file("a.vpk", &["m1", "m1"]), file("b.vpk", &["m2"])];
    assert!(find_duplicates(&files).is_empty());
    assert!(find_duplicates(&Vec::new()).is_empty());
}
