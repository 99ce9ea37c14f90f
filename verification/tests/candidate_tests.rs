use sudoku_reduce::candidate::Sp;

#[test]
fn test_collapse_full_is_none() {
    let sp = Sp::full();
    assert_eq!(sp.try_collapse(), None);
}

#[test]
fn test_collapse_singleton_is_its_digit() {
    for d in 1..=9u8 {
        let sp = Sp::singleton(d);
        assert_eq!(sp.try_collapse(), Some(d));
    }
}

#[test]
fn test_collapse_empty_is_none() {
    let sp = Sp { states: [false; 9] };
    assert_eq!(sp.try_collapse(), None);
}

#[test]
fn test_collapse_two_flags_is_none() {
    let mut states = [false; 9];
    states[2] = true;
    states[6] = true;
    let sp = Sp { states };
    assert_eq!(sp.try_collapse(), None);
}

#[test]
fn test_collapse_does_not_mutate() {
    let sp = Sp::singleton(4);
    let before = sp.states;
    let _ = sp.try_collapse();
    let _ = sp.try_collapse();
    assert_eq!(sp.states, before);
    assert_eq!(sp.try_collapse(), Some(4));
}

#[test]
fn test_clear_removes_one_digit() {
    let mut sp = Sp::full();
    sp.clear(5);
    assert_eq!(sp.display(), "1,2,3,4,6,7,8,9");
    assert_eq!(sp.try_collapse(), None);
}

#[test]
fn test_clear_to_singleton() {
    let mut sp = Sp::full();
    for d in 1..=9u8 {
        if d != 7 {
            sp.clear(d);
        }
    }
    assert_eq!(sp.try_collapse(), Some(7));
    assert_eq!(sp.display(), "7");
}

#[test]
fn test_display_full_is_any() {
    assert_eq!(Sp::full().display(), "any");
}

#[test]
fn test_display_singleton() {
    assert_eq!(Sp::singleton(1).display(), "1");
    assert_eq!(Sp::singleton(9).display(), "9");
}

#[test]
fn test_display_several_digits() {
    let mut states = [false; 9];
    states[0] = true;
    states[4] = true;
    states[8] = true;
    let sp = Sp { states };
    assert_eq!(sp.display(), "1,5,9");
}

#[test]
fn test_display_empty() {
    let sp = Sp { states: [false; 9] };
    assert_eq!(sp.display(), "");
}

#[test]
fn test_display_eight_digits_is_not_any() {
    let mut states = [true; 9];
    states[3] = false;
    let sp = Sp { states };
    assert_eq!(sp.display(), "1,2,3,5,6,7,8,9");
}
