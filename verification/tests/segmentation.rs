use regularize_filename::segment::parse_filename;

fn words(text: &str) -> Vec<String> {
    parse_filename(String::from(text))
}

#[test]
fn empty_text_has_no_words() {
    assert_eq!(words(""), Vec::<String>::new());
}

#[test]
fn separators_alone_give_no_words() {
    assert_eq!(words("   "), Vec::<String>::new());
    assert_eq!(words("._- !?/"), Vec::<String>::new());
}

#[test]
fn every_other_character_separates() {
    assert_eq!(words("a.b_c-d e"), vec!["a", "b", "c", "d", "e"]);
}

#[test]
fn separators_are_dropped_at_both_ends() {
    assert_eq!(words("__foo--bar  "), vec!["foo", "bar"]);
}

#[test]
fn a_change_of_case_starts_a_word() {
    assert_eq!(words("fooBar"), vec!["foo", "Bar"]);
    assert_eq!(words("FooBarBaz"), vec!["Foo", "Bar", "Baz"]);
}

#[test]
fn a_word_of_one_character_takes_the_next_whatever_its_case() {
    assert_eq!(words("aB"), vec!["aB"]);
    assert_eq!(words("Ab"), vec!["Ab"]);
    assert_eq!(words("aBc"), vec!["aB", "c"]);
}

#[test]
fn an_uppercase_run_gives_up_its_last_letter_late() {
    assert_eq!(words("FOOBar"), vec!["FOOB", "ar"]);
}

#[test]
fn digits_join_a_lowercase_word() {
    assert_eq!(words("file123Name"), vec!["file123", "Name"]);
    assert_eq!(words("file2021"), vec!["file2021"]);
}

#[test]
fn digits_leave_an_uppercase_word() {
    assert_eq!(words("FOO123"), vec!["FOO", "12", "3"]);
    assert_eq!(words("ID3Tag"), vec!["ID", "3T", "ag"]);
}

#[test]
fn digits_do_not_change_the_case_that_is_remembered() {
    assert_eq!(words("ab1C"), vec!["ab1", "C"]);
    assert_eq!(words("AB 12c"), vec!["AB", "12", "c"]);
}

#[test]
fn the_remembered_case_outlives_a_separator() {
    assert_eq!(words("ab 123"), vec!["ab", "123"]);
    assert_eq!(words("AB 123"), vec!["AB", "12", "3"]);
}

#[test]
fn words_of_a_spaced_name() {
    assert_eq!(words("My Report FINAL"), vec!["My", "Report", "FINAL"]);
}

#[test]
fn letters_beyond_ascii_are_letters() {
    assert_eq!(words("été_hiver"), vec!["été", "hiver"]);
    assert_eq!(words("éÉcole"), vec!["éÉ", "cole"]);
    assert_eq!(words("straßeNord"), vec!["straße", "Nord"]);
}

#[test]
fn the_length_of_a_word_is_counted_in_characters() {
    assert_eq!(words("éA"), vec!["éA"]);
    assert_eq!(words("éaB"), vec!["éa", "B"]);
}

#[test]
fn letters_without_case_go_in_pairs() {
    assert_eq!(words("中文字"), vec!["中文", "字"]);
}

#[test]
fn digits_beyond_ascii_are_digits() {
    assert_eq!(words("ab٣٤"), vec!["ab٣٤"]);
}

#[test]
fn symbols_beyond_ascii_separate() {
    assert_eq!(words("foo💝bar"), vec!["foo", "bar"]);
    assert_eq!(words("foo—bar"), vec!["foo", "bar"]);
}

#[test]
fn the_words_keep_the_word_characters_in_order() {
    let text = "My Report-FINAL_v2 (copy).Draft";
    let kept: String = text.chars().filter(|c| c.is_alphanumeric()).collect();
    assert_eq!(words(text).concat(), kept);
    assert!(words(text).iter().all(|word| !word.is_empty()));
}
