//! From a free-text prompt to the category key that the catalog is asked for.

use vstd::prelude::*;
use crate::error::Error;
use crate::text::{
    chars_of, find_first, find_last, first_occurrence, is_space, is_space_char, last_occurrence,
    lemma_trim_bounds, occurs_at, stretch, text_of, trim, trim_end, trim_start, trimmed,
};

verus! {

/// The characters that stay when the periods are taken out of a prompt.
pub open spec fn kept() -> spec_fn(char) -> bool {
    |c: char| c != '.'
}

/// `s` without its periods.
pub open spec fn without_periods(s: Seq<char>) -> Seq<char> {
    s.filter(kept())
}

/// The lower-case form of a text, as `str::to_lowercase` gives it.
pub uninterp spec fn lowercase_of(s: Seq<char>) -> Seq<char>;

/// `str::to_lowercase` returns the lower-case equivalent of the string, by the
/// Unicode rules that the standard library carries; the result depends on the
/// characters of the string and on nothing else.
pub assume_specification[ str::to_lowercase ](s: &str) -> (r: String)
    ensures
        r@ == lowercase_of(s@),
;

/// The letter that a look-alike stands for: Cyrillic and Greek letters that
/// are drawn like a Latin one become that Latin letter, and every other
/// character is left as it is.
pub open spec fn fold_char(c: char) -> char {
    if c == '\u{430}' {
        'a'
    } else if c == '\u{435}' {
        'e'
    } else if c == '\u{456}' {
        'i'
    } else if c == '\u{3bf}' {
        'o'
    } else if c == '\u{441}' {
        'c'
    } else if c == '\u{501}' {
        'd'
    } else if c == '\u{455}' {
        's'
    } else if c == '\u{4bb}' {
        'h'
    } else if c == '\u{443}' {
        'y'
    } else if c == '\u{440}' {
        'p'
    } else if c == '\u{3f3}' {
        'j'
    } else {
        c
    }
}

/// `s` with every look-alike replaced by the letter it stands for.
pub open spec fn fold(s: Seq<char>) -> Seq<char> {
    s.map_values(|c: char| fold_char(c))
}

/// `s` begins with `word`, and the word ends there: white space or the end of
/// `s` follows it.
pub open spec fn starts_with_word(s: Seq<char>, word: Seq<char>) -> bool {
    &&& occurs_at(s, word, 0)
    &&& (s.len() == word.len() || is_space(s[word.len() as int]))
}

/// `s` without a leading indefinite article, `a` or `an`.
pub open spec fn without_article(s: Seq<char>) -> Seq<char> {
    if starts_with_word(s, seq!['a', 'n']) {
        s.skip(2)
    } else if starts_with_word(s, seq!['a']) {
        s.skip(1)
    } else {
        s
    }
}

/// The category phrase of a lower-case prompt: what follows the last
/// `containing`, less a leading article; or else what stands between the first
/// `select all` and the first `images` after it. `None` where the prompt holds
/// neither.
pub open spec fn label_of(lowered: Seq<char>) -> Option<Seq<char>> {
    match last_occurrence(lowered, "containing"@) {
        Some(at) => Some(without_article(trim(lowered.skip(at + "containing"@.len())))),
        None => match first_occurrence(lowered, "select all"@) {
            Some(at) => {
                let rest = lowered.skip(at + "select all"@.len());
                match first_occurrence(rest, "images"@) {
                    Some(end) => Some(rest.take(end)),
                    None => None,
                }
            },
            None => None,
        },
    }
}

/// The category key of a lower-case prompt: its category phrase, trimmed and
/// with look-alikes folded.
pub open spec fn key_of(lowered: Seq<char>) -> Option<Seq<char>> {
    match label_of(lowered) {
        Some(label) => Some(fold(trim(label))),
        None => None,
    }
}

/// The category key of a prompt: periods are dropped and the rest is put in
/// lower case before the category phrase is looked for.
pub open spec fn category_key(prompt: Seq<char>) -> Option<Seq<char>> {
    key_of(lowercase_of(without_periods(prompt)))
}

/// Folding leaves a folded character as it is.
pub proof fn lemma_fold_char_idempotent(c: char)
    ensures
        fold_char(fold_char(c)) == fold_char(c),
{
}

/// Folding is idempotent: a text that was folded once is not changed by
/// folding it again.
pub proof fn lemma_fold_idempotent(s: Seq<char>)
    ensures
        fold(fold(s)) == fold(s),
{
    assert forall|i: int| 0 <= i < s.len() implies fold(fold(s))[i] == fold(s)[i] by {
        lemma_fold_char_idempotent(s[i]);
    }
    assert(fold(fold(s)) =~= fold(s));
}

/// Folding makes no white space and takes none away.
pub proof fn lemma_fold_keeps_space(c: char)
    ensures
        is_space(fold_char(c)) == is_space(c),
{
}

/// The key of a prompt has no white space at either end: trimming it again
/// changes nothing.
pub proof fn lemma_key_is_trimmed(prompt: Seq<char>)
    requires
        category_key(prompt).is_some(),
    ensures
        trim(category_key(prompt).unwrap()) == category_key(prompt).unwrap(),
{
    let label = label_of(lowercase_of(without_periods(prompt))).unwrap();
    let inner = trim(label);
    let key = fold(inner);
    lemma_trim_bounds(label);
    if inner.len() > 0 {
        lemma_fold_keeps_space(inner.first());
        lemma_fold_keeps_space(inner.last());
        assert(key.first() == fold_char(inner.first()));
        assert(key.last() == fold_char(inner.last()));
    }
    assert(trim_start(key) == key);
    assert(trim_end(key) == key);
}

/// The key of a prompt is a fixed point of folding.
pub proof fn lemma_key_is_folded(prompt: Seq<char>)
    requires
        category_key(prompt).is_some(),
    ensures
        fold(category_key(prompt).unwrap()) == category_key(prompt).unwrap(),
{
    let label = label_of(lowercase_of(without_periods(prompt))).unwrap();
    lemma_fold_idempotent(trim(label));
}

/// The letter that `c` stands for.
pub fn canonical_char(c: char) -> (r: char)
    ensures
        r == fold_char(c),
{
    if c == '\u{430}' {
        'a'
    } else if c == '\u{435}' {
        'e'
    } else if c == '\u{456}' {
        'i'
    } else if c == '\u{3bf}' {
        'o'
    } else if c == '\u{441}' {
        'c'
    } else if c == '\u{501}' {
        'd'
    } else if c == '\u{455}' {
        's'
    } else if c == '\u{4bb}' {
        'h'
    } else if c == '\u{443}' {
        'y'
    } else if c == '\u{440}' {
        'p'
    } else if c == '\u{3f3}' {
        'j'
    } else {
        c
    }
}

fn fold_chars(v: &Vec<char>) -> (r: Vec<char>)
    ensures
        r@ == fold(v@),
{
    let mut r: Vec<char> = Vec::new();
    let mut i: usize = 0;
    while i < v.len()
        invariant
            i <= v.len(),
            r@.len() == i,
            forall|j: int| 0 <= j < i ==> r@[j] == fold_char(v@[j]),
        decreases v.len() - i,
    {
        r.push(canonical_char(v[i]));
        i += 1;
    }
    assert(r@ =~= fold(v@));
    r
}

/// Replaces every look-alike in `text` by the letter it stands for.
pub fn fold_homoglyphs(text: &str) -> (r: String)
    ensures
        r@ == fold(text@),
{
    let chars = chars_of(text);
    let folded = fold_chars(&chars);
    text_of(&folded)
}

/// Copies `prompt` without its periods.
pub fn strip_periods(prompt: &str) -> (r: String)
    ensures
        r@ == without_periods(prompt@),
{
    let chars = chars_of(prompt);
    let mut r = String::new();
    let mut i: usize = 0;
    proof {
        reveal(Seq::filter);
        assert(chars@.take(0) =~= Seq::<char>::empty());
    }
    while i < chars.len()
        invariant
            i <= chars.len(),
            r@ == chars@.take(i as int).filter(kept()),
        decreases chars.len() - i,
    {
        let c = chars[i];
        proof {
            let before = chars@.take(i as int);
            assert(chars@.take(i + 1) =~= before.push(c));
            before.lemma_filter_push(c, kept());
        }
        if c != '.' {
            r.push(c);
        }
        i += 1;
    }
    assert(chars@.take(chars.len() as int) =~= chars@);
    r
}

fn strip_article(phrase: &Vec<char>) -> (r: Vec<char>)
    ensures
        r@ == without_article(phrase@),
{
    let n = phrase.len();
    if n >= 2 && phrase[0] == 'a' && phrase[1] == 'n' && (n == 2 || is_space_char(phrase[2])) {
        assert(phrase@.subrange(0, 2) =~= seq!['a', 'n']);
        assert(phrase@.skip(2) =~= phrase@.subrange(2, n as int));
        stretch(phrase, 2, n)
    } else if n >= 1 && phrase[0] == 'a' && (n == 1 || is_space_char(phrase[1])) {
        assert(phrase@.subrange(0, 1) =~= seq!['a']);
        assert(!starts_with_word(phrase@, seq!['a', 'n'])) by {
            if n >= 2 {
                assert(phrase@.subrange(0, 2)[0] == phrase@[0]);
                assert(phrase@.subrange(0, 2)[1] == phrase@[1]);
                assert(seq!['a', 'n'][1] == 'n');
            }
        }
        assert(phrase@.skip(1) =~= phrase@.subrange(1, n as int));
        stretch(phrase, 1, n)
    } else {
        assert(!starts_with_word(phrase@, seq!['a', 'n'])) by {
            if n >= 2 {
                assert(phrase@.subrange(0, 2)[0] == phrase@[0]);
                assert(phrase@.subrange(0, 2)[1] == phrase@[1]);
                assert(seq!['a', 'n'][0] == 'a');
                assert(seq!['a', 'n'][1] == 'n');
            }
        }
        assert(!starts_with_word(phrase@, seq!['a'])) by {
            if n >= 1 {
                assert(phrase@.subrange(0, 1)[0] == phrase@[0]);
                assert(seq!['a'][0] == 'a');
            }
        }
        assert(phrase@.subrange(0, n as int) =~= phrase@);
        stretch(phrase, 0, n)
    }
}

/// Finds the category key of a prompt that is already in lower case and free
/// of periods.
pub fn extract_key(lowered: &str) -> (r: Result<String, Error>)
    ensures
        match key_of(lowered@) {
            Some(key) => r matches Ok(found) && found@ == key,
            None => r matches Err(e) && e is MalformedPrompt,
        },
{
    let text = chars_of(lowered);
    let containing = chars_of("containing");
    let label = match find_last(&text, &containing) {
        Some(at) => {
            assert(text@.skip(at + containing@.len()) =~= text@.subrange(
                at + containing@.len(),
                text@.len() as int,
            ));
            let rest = stretch(&text, at + containing.len(), text.len());
            let phrase = trimmed(&rest);
            strip_article(&phrase)
        },
        None => {
            let select_all = chars_of("select all");
            match find_first(&text, &select_all) {
                Some(at) => {
                    assert(text@.skip(at + select_all@.len()) =~= text@.subrange(
                        at + select_all@.len(),
                        text@.len() as int,
                    ));
                    assert(at + select_all.len() <= text.len());
                    let rest = stretch(&text, at + select_all.len(), text.len());
                    let images = chars_of("images");
                    match find_first(&rest, &images) {
                        Some(end) => {
                            assert(rest@.take(end as int) =~= rest@.subrange(0, end as int));
                            stretch(&rest, 0, end)
                        },
                        None => {
                            return Err(Error::MalformedPrompt);
                        },
                    }
                },
                None => {
                    return Err(Error::MalformedPrompt);
                },
            }
        },
    };
    let key = fold_chars(&trimmed(&label));
    Ok(text_of(&key))
}

/// Turns a prompt into the category key it asks for.
///
/// Periods are dropped and the prompt is put in lower case. The category
/// phrase is what follows the last `containing`, less a leading `a` or `an`;
/// where the prompt holds no `containing`, it is what stands between the first
/// `select all` and the next `images`. The phrase is trimmed and its look-alike
/// letters are folded. A prompt with neither marker is malformed.
pub fn clean_prompt(prompt: &str) -> (r: Result<String, Error>)
    ensures
        match category_key(prompt@) {
            Some(key) => r matches Ok(found) && found@ == key,
            None => r matches Err(e) && e is MalformedPrompt,
        },
{
    let stripped = strip_periods(prompt);
    let lowered = stripped.as_str().to_lowercase();
    extract_key(lowered.as_str())
}

} // verus!
