use hw_raytracer::obj_loader::{
    element_position, first_token, get_element, parse_i32, split, tail,
};

#[test]
fn the_first_word_of_a_line() {
    assert_eq!(first_token("v 1.0 2.0 3.0"), "v");
    assert_eq!(first_token("  \tusemtl  white"), "usemtl");
    assert_eq!(first_token("word"), "word");
    assert_eq!(first_token("   "), "");
    assert_eq!(first_token(""), "");
}

#[test]
fn the_rest_of_a_line_without_its_last_word() {
    assert_eq!(tail("v 1.0 2.0 3.0"), "1.0 2.0 ");
    assert_eq!(tail("usemtl   white  "), "white  ");
    assert_eq!(tail("  f  1 2 3 "), "1 2 3 ");
    assert_eq!(tail("v 1.0"), "");
    assert_eq!(tail("word"), "");
    assert_eq!(tail(""), "");
}

#[test]
fn the_rest_of_a_line_with_wide_characters() {
    // Two bytes to a character: as many characters are read as the line has bytes less two.
    assert_eq!(tail("é a b éé"), "a b éé");
}

#[test]
fn a_line_is_cut_at_every_separator() {
    assert_eq!(split("1 2 3", " "), vec!["1", "2", "3"]);
    assert_eq!(split("1/2/3", "/"), vec!["1", "2", "3"]);
    assert_eq!(split("1//3", "/"), vec!["1", "", "3"]);
    assert_eq!(split("/1/", "/"), vec!["", "1", ""]);
    assert_eq!(split("abc", "/"), vec!["abc"]);
    assert_eq!(split("", "/"), vec![""]);
    assert_eq!(split("a--b---c", "--"), vec!["a", "b", "-c"]);
    assert_eq!(split("aaa", "aa"), vec!["", "a"]);
}

#[test]
fn an_empty_separator_cuts_around_every_character() {
    assert_eq!(split("abc", ""), vec!["", "a", "b", "c", ""]);
    assert_eq!(split("", ""), vec!["", ""]);
}

#[test]
fn the_pieces_agree_with_the_standard_library() {
    let lines = ["f 1/2/3 4/5/6 7/8/9", "  v  1 2  3 ", "a,b,,c,", ",,", "xyzxyz", "é/ü/"];
    let tokens = [" ", "/", ",", "xyz", "z", "", "é", "  "];
    for line in lines.iter() {
        for token in tokens.iter() {
            let expected: Vec<&str> = line.split(token).collect();
            assert_eq!(split(line, token), expected, "{:?} cut at {:?}", line, token);
        }
    }
}

#[test]
fn integers_are_read_with_an_optional_sign() {
    assert_eq!(parse_i32("0"), Some(0));
    assert_eq!(parse_i32("42"), Some(42));
    assert_eq!(parse_i32("-42"), Some(-42));
    assert_eq!(parse_i32("+42"), Some(42));
    assert_eq!(parse_i32("007"), Some(7));
    assert_eq!(parse_i32("2147483647"), Some(i32::MAX));
    assert_eq!(parse_i32("-2147483648"), Some(i32::MIN));
}

#[test]
fn what_is_no_integer_is_refused() {
    assert_eq!(parse_i32(""), None);
    assert_eq!(parse_i32("-"), None);
    assert_eq!(parse_i32("+"), None);
    assert_eq!(parse_i32("1.5"), None);
    assert_eq!(parse_i32(" 1"), None);
    assert_eq!(parse_i32("1 "), None);
    assert_eq!(parse_i32("--1"), None);
    assert_eq!(parse_i32("12a"), None);
    assert_eq!(parse_i32("2147483648"), None);
    assert_eq!(parse_i32("-2147483649"), None);
    assert_eq!(parse_i32("99999999999999999999999999"), None);
}

#[test]
fn integers_are_read_as_the_standard_library_reads_them() {
    let words = ["0", "-0", "+0", "12", "-12", "+12", "", "-", "1-", "٣", "2147483647", "2147483648", "-2147483648", "00000000000000000001"];
    for word in words.iter() {
        assert_eq!(parse_i32(word), word.parse::<i32>().ok(), "{:?}", word);
    }
}

#[test]
fn indices_count_from_one_and_back_from_the_end() {
    let elements = vec!["a", "b", "c"];
    assert_eq!(get_element(&elements, "1"), "a");
    assert_eq!(get_element(&elements, "3"), "c");
    assert_eq!(get_element(&elements, "-1"), "c");
    assert_eq!(get_element(&elements, "-3"), "a");
    assert_eq!(element_position(3, "2"), Some(1));
    assert_eq!(element_position(3, "-2"), Some(1));
}

#[test]
fn indices_beyond_the_list_denote_nothing() {
    assert_eq!(element_position(3, "0"), None);
    assert_eq!(element_position(3, "4"), None);
    assert_eq!(element_position(3, "-4"), None);
    assert_eq!(element_position(3, "x"), None);
    assert_eq!(element_position(0, "1"), None);
}
