use elba::build::{Target, Targets};

fn built(targets: Vec<Target>) -> Vec<Target> {
    Targets::new(targets).0
}

#[test]
fn nothing_is_built_of_nothing() {
    assert_eq!(built(vec![]), vec![]);
}

#[test]
fn executables_are_sorted_and_kept() {
    assert_eq!(
        built(vec![Target::Bin(2), Target::Bin(0), Target::Bin(2)]),
        vec![Target::Bin(0), Target::Bin(2), Target::Bin(2)]
    );
}

#[test]
fn library_is_built_once_and_first() {
    assert_eq!(
        built(vec![Target::Bin(1), Target::Lib, Target::Lib]),
        vec![Target::Lib, Target::Bin(1)]
    );
}

#[test]
fn test_brings_the_library() {
    assert_eq!(
        built(vec![Target::Test(3), Target::Bin(1)]),
        vec![Target::Lib, Target::Bin(1), Target::Test(3)]
    );
}

#[test]
fn documentation_brings_the_library() {
    assert_eq!(built(vec![Target::Doc]), vec![Target::Lib, Target::Doc]);
}

#[test]
fn only_the_first_that_needs_the_library_is_built() {
    assert_eq!(
        built(vec![Target::Doc, Target::Test(4), Target::Test(2)]),
        vec![Target::Lib, Target::Test(2)]
    );
}

#[test]
fn library_that_was_asked_for_takes_the_place_of_what_needs_it() {
    assert_eq!(
        built(vec![Target::Test(0), Target::Doc, Target::Lib, Target::Bin(0)]),
        vec![Target::Lib, Target::Bin(0)]
    );
}

#[test]
fn order_of_the_request_does_not_matter() {
    let left = vec![Target::Doc, Target::Bin(3), Target::Test(1), Target::Bin(0)];
    let right = vec![Target::Bin(0), Target::Test(1), Target::Bin(3), Target::Doc];
    assert_eq!(built(left), built(right));
}

#[test]
fn result_is_in_the_order_of_targets() {
    let result = built(vec![Target::Test(0), Target::Bin(9), Target::Bin(1)]);
    let mut sorted = result.clone();
    sorted.sort();
    assert_eq!(result, sorted);
    assert_eq!(result, vec![Target::Lib, Target::Bin(1), Target::Bin(9), Target::Test(0)]);
}

#[test]
fn targets_can_be_copied() {
    let targets = Targets::new(vec![Target::Bin(1), Target::Doc]);
    assert_eq!(targets.clone(), targets);
}
