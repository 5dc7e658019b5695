use regularize_filename::convention::{
    apply_case, camel_case, car_cdr, convert_filename, join, kebab_case, pascal_case, snake_case,
    FormattingMode,
};

fn words(list: &[&str]) -> Vec<String> {
    list.iter().map(|word| String::from(*word)).collect()
}

const MODES: [FormattingMode; 4] = [
    FormattingMode::SnakeCase,
    FormattingMode::KebabCase,
    FormattingMode::CamelCase,
    FormattingMode::PascalCase,
];

#[test]
fn no_words_give_the_empty_name() {
    assert_eq!(snake_case(Vec::new()), "");
    assert_eq!(kebab_case(Vec::new()), "");
    assert_eq!(camel_case(Vec::new()), "");
    assert_eq!(pascal_case(Vec::new()), "");
    for mode in MODES.iter() {
        assert_eq!(apply_case(Vec::new(), mode), "");
        assert_eq!(convert_filename("", mode), "");
        assert_eq!(convert_filename(" -_. ", mode), "");
    }
}

#[test]
fn two_words_in_each_convention() {
    assert_eq!(snake_case(words(&["foo", "Bar"])), "foo_bar");
    assert_eq!(kebab_case(words(&["foo", "Bar"])), "foo-bar");
    assert_eq!(camel_case(words(&["foo", "Bar"])), "fooBar");
    assert_eq!(pascal_case(words(&["foo", "Bar"])), "FooBar");
}

#[test]
fn apply_case_picks_the_convention() {
    let list = ["HTTP", "reQuest", "x2"];
    assert_eq!(apply_case(words(&list), &FormattingMode::SnakeCase), "http_request_x2");
    assert_eq!(apply_case(words(&list), &FormattingMode::KebabCase), "http-request-x2");
    assert_eq!(apply_case(words(&list), &FormattingMode::CamelCase), "httpRequestX2");
    assert_eq!(apply_case(words(&list), &FormattingMode::PascalCase), "HttpRequestX2");
}

#[test]
fn one_word_has_no_separator() {
    assert_eq!(snake_case(words(&["Word"])), "word");
    assert_eq!(kebab_case(words(&["Word"])), "word");
    assert_eq!(camel_case(words(&["Word"])), "word");
    assert_eq!(pascal_case(words(&["wORD"])), "Word");
}

#[test]
fn join_puts_the_separator_between_neighbours() {
    assert_eq!(join(&words(&[]), '.'), "");
    assert_eq!(join(&words(&["a"]), '.'), "a");
    assert_eq!(join(&words(&["a", "b", "c"]), '.'), "a.b.c");
    assert_eq!(join(&words(&["", "a", ""]), '.'), ".a.");
}

#[test]
fn car_cdr_splits_behind_the_first_character() {
    assert_eq!(car_cdr("word"), ("w", "ord"));
    assert_eq!(car_cdr("w"), ("w", ""));
    assert_eq!(car_cdr(""), ("", ""));
}

#[test]
fn car_cdr_splits_behind_a_character_of_several_bytes() {
    assert_eq!(car_cdr("école"), ("é", "cole"));
    assert_eq!(car_cdr("中文"), ("中", "文"));
    assert_eq!(car_cdr("💝"), ("💝", ""));
}

#[test]
fn camel_case_capitalizes_every_word_but_the_first() {
    assert_eq!(camel_case(words(&["FOO", "bAR", "baz"])), "fooBarBaz");
    assert_eq!(camel_case(words(&["", "FOO", "bar"])), "FooBar");
    assert_eq!(camel_case(words(&["", ""])), "");
}

#[test]
fn pascal_case_passes_over_empty_words() {
    assert_eq!(pascal_case(words(&["", "foo", "", "bar"])), "FooBar");
}

#[test]
fn convert_filename_in_each_convention() {
    assert_eq!(convert_filename("My Report FINAL", &FormattingMode::KebabCase), "my-report-final");
    assert_eq!(convert_filename("My Report FINAL", &FormattingMode::SnakeCase), "my_report_final");
    assert_eq!(convert_filename("My Report FINAL", &FormattingMode::CamelCase), "myReportFinal");
    assert_eq!(convert_filename("My Report FINAL", &FormattingMode::PascalCase), "MyReportFinal");
}

#[test]
fn convert_filename_keeps_the_late_split_of_an_uppercase_run() {
    assert_eq!(convert_filename("FOOBar", &FormattingMode::KebabCase), "foob-ar");
    assert_eq!(convert_filename("FOOBar", &FormattingMode::PascalCase), "FoobAr");
}

#[test]
fn words_beyond_ascii_change_case() {
    assert_eq!(snake_case(words(&["ÉCOLE", "Été"])), "école_été");
    assert_eq!(kebab_case(words(&["ΑΒΓ"])), "αβγ");
    assert_eq!(pascal_case(words(&["école", "ÉTÉ"])), "ÉcoleÉté");
    assert_eq!(camel_case(words(&["École", "éTÉ"])), "écoleÉté");
}

#[test]
fn a_mapping_may_change_the_number_of_characters() {
    assert_eq!(pascal_case(words(&["ßa"])), "SSa");
    assert_eq!(snake_case(words(&["İ"])), "i\u{307}");
}

#[test]
fn a_capital_sigma_at_the_end_of_a_word_gets_its_final_form() {
    assert_eq!(snake_case(words(&["ΟΔΟΣ"])), "οδος");
    assert_eq!(pascal_case(words(&["ΟΔΟΣ"])), "Οδος");
}

#[test]
fn ascii_letters_next_to_others_change_case() {
    assert_eq!(snake_case(words(&["CAFÉ"])), "café");
    assert_eq!(pascal_case(words(&["éCOLE"])), "École");
    assert_eq!(pascal_case(words(&["aÉB"])), "Aéb");
}

#[test]
fn ascii_rules_agree_with_the_standard_library() {
    for byte in 0u8..128 {
        let c = byte as char;
        let text = c.to_string();
        assert_eq!(snake_case(vec![text.clone()]), text.to_lowercase());
        assert_eq!(pascal_case(vec![text.clone()]), text.to_uppercase());
        assert_eq!(pascal_case(vec![format!("a{}", text)]), format!("A{}", text.to_lowercase()));
    }
}

#[test]
fn a_separated_name_converts_to_itself() {
    for mode in [FormattingMode::SnakeCase, FormattingMode::KebabCase].iter() {
        for text in ["My Report FINAL", "FOOBar", "file123Name", "ID3Tag", "a.b_c-d e", "", "x"] {
            let once = convert_filename(text, mode);
            assert_eq!(convert_filename(&once, mode), once);
        }
    }
}

#[test]
fn a_name_marked_by_case_may_convert_to_another() {
    let once = convert_filename("a b", &FormattingMode::PascalCase);
    assert_eq!(once, "AB");
    assert_eq!(convert_filename(&once, &FormattingMode::PascalCase), "Ab");
}

#[test]
fn a_lowercase_form_with_a_mark_does_not_convert_to_itself() {
    let once = convert_filename("İ", &FormattingMode::SnakeCase);
    assert_eq!(once, "i\u{307}");
    assert_eq!(convert_filename(&once, &FormattingMode::SnakeCase), "i");
}
