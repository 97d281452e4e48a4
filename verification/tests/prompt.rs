use hcaptcha_solver::error::Error;
use hcaptcha_solver::prompt::{
    canonical_char, clean_prompt, extract_key, fold_homoglyphs, strip_periods,
};
use hcaptcha_solver::text::{chars_of, find_first, find_last, is_space_char, text_of, trimmed};

fn key(prompt: &str) -> String {
    clean_prompt(prompt).unwrap()
}

#[test]
fn containing_with_article() {
    assert_eq!(key("Please click each image containing a dog."), "dog");
}

#[test]
fn containing_with_an() {
    assert_eq!(key("Please click each image containing an airplane"), "airplane");
}

#[test]
fn containing_without_article() {
    assert_eq!(key("Please click each image containing bicycles"), "bicycles");
}

#[test]
fn a_word_that_begins_with_a_keeps_its_letters() {
    assert_eq!(key("containing apple"), "apple");
    assert_eq!(key("containing anchor"), "anchor");
    assert_eq!(key("containing aardvark"), "aardvark");
}

#[test]
fn only_one_article_is_stripped() {
    assert_eq!(key("containing a a dog"), "a dog");
    assert_eq!(key("containing an a dog"), "a dog");
}

#[test]
fn a_lone_article_leaves_an_empty_key() {
    assert_eq!(key("containing a"), "");
    assert_eq!(key("containing an"), "");
    assert_eq!(key("containing"), "");
}

#[test]
fn the_last_containing_decides() {
    assert_eq!(key("containing a cat containing a boat"), "boat");
}

#[test]
fn select_all_images() {
    assert_eq!(key("Select all cat images"), "cat");
    assert_eq!(key("Please select all  traffic light  images."), "traffic light");
}

#[test]
fn select_all_takes_the_first_of_each_marker() {
    assert_eq!(key("select all one select all two images three images"), "one select all two");
}

#[test]
fn select_all_with_nothing_between() {
    assert_eq!(key("select all images"), "");
    assert_eq!(key("select allimages"), "");
}

#[test]
fn containing_comes_before_select_all() {
    assert_eq!(key("Please select all images containing a Bus."), "bus");
}

#[test]
fn prompt_without_marker_is_malformed() {
    assert!(matches!(clean_prompt("Pick the dogs"), Err(Error::MalformedPrompt)));
    assert!(matches!(clean_prompt(""), Err(Error::MalformedPrompt)));
}

#[test]
fn select_all_without_images_is_malformed() {
    assert!(matches!(clean_prompt("Select all cars"), Err(Error::MalformedPrompt)));
    assert!(matches!(clean_prompt("images of cars, select all"), Err(Error::MalformedPrompt)));
}

#[test]
fn periods_are_dropped_before_the_markers_are_sought() {
    assert_eq!(key("con.tain.ing a d.o.g."), "dog");
    assert_eq!(strip_periods("a.b..c."), "abc");
    assert_eq!(strip_periods("..."), "");
    assert_eq!(strip_periods("none"), "none");
}

#[test]
fn the_prompt_is_put_in_lower_case() {
    assert_eq!(key("PLEASE CLICK EACH IMAGE CONTAINING A MOTORBUS"), "motorbus");
    assert_eq!(key("Containing \u{c9}CLAIR"), "\u{e9}clair");
}

#[test]
fn upper_case_look_alikes_are_lowered_and_then_folded() {
    // CYRILLIC CAPITAL A lowers to the small one, which is folded to `a`.
    assert_eq!(key("containing C\u{410}T"), "cat");
}

#[test]
fn look_alikes_are_folded() {
    assert_eq!(key("containing a \u{441}\u{430}r"), "car");
    assert_eq!(key("select all \u{455}\u{4bb}i\u{440} images"), "ship");
    assert_eq!(
        fold_homoglyphs("\u{430}\u{435}\u{456}\u{3bf}\u{441}\u{501}\u{455}\u{4bb}\u{443}\u{440}\u{3f3}"),
        "aeiocdshypj"
    );
    assert_eq!(fold_homoglyphs("plain text \u{4e00}"), "plain text \u{4e00}");
}

#[test]
fn every_entry_of_the_table() {
    let table = [
        ('\u{430}', 'a'),
        ('\u{435}', 'e'),
        ('\u{456}', 'i'),
        ('\u{3bf}', 'o'),
        ('\u{441}', 'c'),
        ('\u{501}', 'd'),
        ('\u{455}', 's'),
        ('\u{4bb}', 'h'),
        ('\u{443}', 'y'),
        ('\u{440}', 'p'),
        ('\u{3f3}', 'j'),
    ];
    for (from, to) in table {
        assert_eq!(canonical_char(from), to);
        assert_eq!(canonical_char(to), to);
    }
    assert_eq!(canonical_char('z'), 'z');
    assert_eq!(canonical_char('\u{431}'), '\u{431}');
}

#[test]
fn folding_twice_is_folding_once() {
    for text in ["", "dog", "\u{441}\u{430}r", "m\u{456}x\u{3f3}ed \u{443}p", "\u{4e00}\u{4e8c}"] {
        let once = fold_homoglyphs(text);
        assert_eq!(fold_homoglyphs(&once), once);
    }
    for code in 0..0x11_0000u32 {
        if let Some(c) = char::from_u32(code) {
            assert_eq!(canonical_char(canonical_char(c)), canonical_char(c));
        }
    }
}

#[test]
fn look_alikes_in_a_marker_do_not_make_a_marker() {
    assert!(matches!(
        clean_prompt("\u{441}ontaining a dog"),
        Err(Error::MalformedPrompt)
    ));
}

#[test]
fn the_key_is_trimmed() {
    assert_eq!(key("containing \t a \u{a0} dog \n"), "dog");
    assert_eq!(key("containing a\u{3000}dog"), "dog");
    assert_eq!(extract_key("containing   two words   ").unwrap(), "two words");
}

#[test]
fn extract_key_takes_the_text_as_it_stands() {
    // No lower-casing here: the marker is sought as written.
    assert!(matches!(extract_key("Containing a dog"), Err(Error::MalformedPrompt)));
    assert_eq!(extract_key("containing a Dog").unwrap(), "Dog");
}

#[test]
fn white_space_is_what_the_standard_library_calls_white_space() {
    for code in 0..0x11_0000u32 {
        if let Some(c) = char::from_u32(code) {
            assert_eq!(is_space_char(c), c.is_whitespace(), "U+{:04X}", code);
        }
    }
}

#[test]
fn trimming_agrees_with_the_standard_library() {
    for text in ["", " ", "a", " a", "a ", "  a b  ", "\u{2003}x\u{205f}", "\n\t\r", "x\u{85}"] {
        assert_eq!(text_of(&trimmed(&chars_of(text))), text.trim());
    }
}

#[test]
fn occurrences() {
    let hay = chars_of("abcabcab");
    assert_eq!(find_first(&hay, &chars_of("abc")), Some(0));
    assert_eq!(find_last(&hay, &chars_of("abc")), Some(3));
    assert_eq!(find_first(&hay, &chars_of("ab")), Some(0));
    assert_eq!(find_last(&hay, &chars_of("ab")), Some(6));
    assert_eq!(find_first(&hay, &chars_of("ca")), Some(2));
    assert_eq!(find_first(&hay, &chars_of("x")), None);
    assert_eq!(find_last(&hay, &chars_of("abcabcabc")), None);
    assert_eq!(find_first(&hay, &chars_of("")), Some(0));
    assert_eq!(find_last(&hay, &chars_of("")), Some(8));
    assert_eq!(find_first(&chars_of(""), &chars_of("a")), None);
}

#[test]
fn text_round_trip() {
    for text in ["", "dog", "\u{441}\u{430}r \u{1f600}"] {
        assert_eq!(text_of(&chars_of(text)), text);
    }
}
