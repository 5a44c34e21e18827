use macro_magic_core::naming::{export_tokens_macro_ident, flatten_ident, to_snake_case};

#[test]
fn test_snake_case() {
    assert_eq!(to_snake_case("ThisIsATriumph"), "this_is_a_triumph");
    assert_eq!(to_snake_case("IAmMakingANoteHere"), "i_am_making_a_note_here");
    assert_eq!(to_snake_case("huge_success"), "huge_success");
    assert_eq!(
        to_snake_case("It's hard to   Overstate my satisfaction!!!"),
        "its_hard_to_overstate_my_satisfaction"
    );
    assert_eq!(to_snake_case("__aperature_science__"), "__aperature_science__");
    assert_eq!(
        to_snake_case("WeDoWhatWeMustBecause!<We, Can>()"),
        "we_do_what_we_must_because_we_can"
    );
    assert_eq!(
        to_snake_case(&"For_The_Good_of_all_of_us_Except_TheOnes_Who Are Dead".to_string()),
        "for_the_good_of_all_of_us_except_the_ones_who_are_dead"
    );
    assert_eq!(to_snake_case(&"".to_string()), "");
}

#[test]
fn snake_case_edges() {
    assert_eq!(to_snake_case(" Leading"), " _leading");
    assert_eq!(to_snake_case("a\u{3000}b"), "a_b");
    assert_eq!(to_snake_case("ab1"), "ab_1");
    assert_eq!(to_snake_case("!!!"), "");
    assert_eq!(to_snake_case("a__b"), "a_b");
    assert_eq!(to_snake_case("huge__success"), "huge_success");
    assert_eq!(to_snake_case("a _ b"), "a_b");
    assert_eq!(to_snake_case("a__"), "a__");
    assert_eq!(to_snake_case("a "), "a_");
    assert_eq!(to_snake_case("__A_b__"), "__a_b__");
    assert_eq!(to_snake_case("ÄbC"), "b_c");
}

#[test]
fn slot_names() {
    assert_eq!(flatten_ident("SomethingCool"), "something_cool");
    assert_eq!(export_tokens_macro_ident("SomethingCool"), "__export_tokens_tt_something_cool");
    assert_eq!(export_tokens_macro_ident("x"), "__export_tokens_tt_x");
}

#[test]
fn snake_case_is_stable() {
    for s in ["ThisIsATriumph", " Leading", "a__b__", "__x_Y", "a \u{3000}b", "It's hard to   Overstate"] {
        let once = to_snake_case(s);
        assert_eq!(to_snake_case(&once), once, "normalizing {:?} twice", s);
    }
}
