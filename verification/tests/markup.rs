use bfn::strip_tags;
use regex::Regex;

#[test]
fn test_strip_tags() {
    // Test case with HTML tags
    let input = Some("<h1>Hello</h1> <p>World!</p> <tag>Text</tag>");
    let expected = "Hello World! Text";
    assert_eq!(strip_tags(input), expected);

    // Test case with only < and > characters
    let input = Some("Some numbers <text>   < and > letters.");
    let expected = "Some numbers « and » letters.";
    assert_eq!(strip_tags(input), expected);

    // Test case with only < and > characters
    let input = Some("Some numbers <text>   and > letters.");
    let expected = "Some numbers and » letters.";
    assert_eq!(strip_tags(input), expected);

    // Test case with only < and > characters
    let input = Some("Some numbers <text> <<<  and   letters.");
    let expected = "Some numbers « and letters.";
    assert_eq!(strip_tags(input), expected);

    // Test case with only < and > characters
    let input = Some("Some numbers <text> <  <  <  and   letters.");
    let expected = "Some numbers « and letters.";
    assert_eq!(strip_tags(input), expected);

    // Test case with only < and > characters
    let input = Some("Some numbers <text>  and >  >    >  letters.");
    let expected = "Some numbers and » letters.";
    assert_eq!(strip_tags(input), expected);

    // Test case with extra whitespace
    let input = Some("   <div>  Line   with     spaces   </div>  ");
    let expected = "Line with spaces";
    assert_eq!(strip_tags(input), expected);

    // Test empty input
    let input = Some("");
    let expected = "";
    assert_eq!(strip_tags(input), expected);

    // Test case with no tags or < >
    let input = Some("Just plain text.");
    let expected = "Just plain text.";
    assert_eq!(strip_tags(input), expected);

    // Test None input
    let input: Option<&str> = None;
    let expected = "";
    assert_eq!(strip_tags(input), expected);
}

/// The same transform written with patterns.
fn strip_tags_by_patterns(input: &str) -> String {
    let space_re = Regex::new(r"\s+").unwrap();
    let tag_re = Regex::new(r"</?[a-zA-Z][^>]*>").unwrap();
    let without_tags = tag_re.replace_all(input, "").to_string();
    let re_less = Regex::new(r"<(\s*<)*").unwrap();
    let re_greater = Regex::new(r">(\s*>)*").unwrap();
    let without_arr = re_greater
        .replace_all(&re_less.replace_all(&without_tags, "«"), "»")
        .to_string();
    space_re.replace_all(&without_arr, " ").trim().to_string()
}

#[test]
fn strip_tags_agrees_with_patterns_on_samples() {
    let samples = [
        "",
        " ",
        "<",
        ">",
        "<>",
        "<3>",
        "a < b > c",
        "<a",
        "</a",
        "</>",
        "< a>",
        "<a>",
        "</a>",
        "<//a>",
        "<a <b>c>",
        "x<a\n href='>'>y",
        "<<a>>",
        "< <\t<\n< x",
        "> > >",
        "<a><",
        "<<<a>",
        "< <b> <",
        "> <i> >",
        "<1><a></1>",
        "\u{a0}<b>\u{2003}bold\u{3000}</b>\u{85}",
        "« < » >",
        "<é>",
        "<a\u{0}>z",
        "a<b<c<d",
        "a>b>c>d",
        "1 <2 <a 3> 4> 5",
        "<A><B></B></A>tail<",
    ];
    for s in samples {
        assert_eq!(strip_tags(Some(s)), strip_tags_by_patterns(s), "input {:?}", s);
    }
}

#[test]
fn strip_tags_agrees_with_patterns_on_generated_texts() {
    let alphabet = ['<', '>', '/', 'a', 'Z', '1', ' ', '\n', '\u{2003}', 'é', '«'];
    let mut state: u64 = 0x9E37_79B9_7F4A_7C15;
    for _ in 0..4000 {
        let mut text = String::new();
        state = state.wrapping_mul(6364136223846793005).wrapping_add(1442695040888963407);
        let len = (state >> 59) as usize;
        for _ in 0..len {
            state = state.wrapping_mul(6364136223846793005).wrapping_add(1442695040888963407);
            text.push(alphabet[((state >> 33) % alphabet.len() as u64) as usize]);
        }
        assert_eq!(strip_tags(Some(&text)), strip_tags_by_patterns(&text), "input {:?}", text);
    }
}

#[test]
fn strip_tags_keeps_a_bracket_before_a_digit() {
    assert_eq!(strip_tags(Some("I <3 you")), "I «3 you");
    assert_eq!(strip_tags(Some("<3>")), "«3»");
}

#[test]
fn strip_tags_leaves_an_unclosed_tag() {
    assert_eq!(strip_tags(Some("a <b c")), "a «b c");
    assert_eq!(strip_tags(Some("a </b")), "a «/b");
}

#[test]
fn strip_tags_takes_a_tag_up_to_the_first_closing_bracket() {
    assert_eq!(strip_tags(Some("<a <b> c>")), "c»");
}
