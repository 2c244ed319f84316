use bfn::codes::family_of_name;
use bfn::{
    parse_disposal_code, parse_env_code, parse_low_code, parse_recovery_code, CodeFamily,
};

#[test]
fn test_parse_disposal_code() {
    assert_eq!(Some("D10".to_string()), parse_disposal_code("  d10   "));
    assert_eq!(
        Some("D10.21".to_string()),
        parse_disposal_code("  d10.21   ")
    );
    assert_eq!(None, parse_disposal_code("  d10.2143434   "));
}

#[test]
fn test_parse_recovery_code() {
    assert_eq!(Some("R10".to_string()), parse_recovery_code("  r10   "));
    assert_eq!(
        Some("R10.21".to_string()),
        parse_recovery_code("  r10.21   ")
    );
    assert_eq!(None, parse_recovery_code("  r10.2143434   "));
}

#[test]
fn test_parse_low_code() {
    assert_eq!(
        Some("102030".to_string()),
        parse_low_code("  10 20    30   ")
    );
    assert_eq!(
        Some("102030*".to_string()),
        parse_low_code("  10 20    30  * ")
    );
    assert_eq!(
        Some("102030*".to_string()),
        parse_low_code("  abs 10 c 20   30  * ")
    );
    assert_eq!(
        Some("1020".to_string()),
        parse_low_code("  abs 10 c 20      ")
    );
    assert_eq!(Some("10".to_string()), parse_low_code("  abs 10 c       "));
    assert_eq!(None, parse_low_code("  bla bla * "));
    assert_eq!(None, parse_low_code(" abc 125"));
    assert_eq!(None, parse_low_code("  10   * "));
    assert_eq!(None, parse_low_code(""));
}

#[test]
fn test_parse_env_code() {
    assert_eq!(None, parse_env_code("  bla bla * ", "loWCode"));
    assert_eq!(
        Some("102030*".to_string()),
        parse_env_code("  10 20    30  * ", "loWCode")
    );
}

#[test]
fn disposal_code_shapes() {
    for ok in ["D1", "d1", "D12", "D1.2", "D1.23", "D12.3", "D12.34", "\tD9.9\n"] {
        let want = format!("D{}", &ok.trim()[1..]);
        assert_eq!(parse_disposal_code(ok), Some(want), "input {:?}", ok);
    }
    for bad in [
        "", " ", "D", "d", "1", "D.", "D123", "D1.", "D.1", "D1.234", "D123.4", "D1..2", "D1.2.3",
        "D 1", "D1 .2", "DD1", "R1", "D1a", "aD1", "D-1", "D1,2", "D١", "Ｄ1",
    ] {
        assert_eq!(parse_disposal_code(bad), None, "input {:?}", bad);
    }
}

#[test]
fn recovery_code_shapes() {
    for ok in ["R1", "r1", "R12", "R1.2", "R1.23", "R12.3", "R12.34", "  r7.05 "] {
        let want = format!("R{}", &ok.trim()[1..]);
        assert_eq!(parse_recovery_code(ok), Some(want), "input {:?}", ok);
    }
    for bad in ["", "R", "r", "R123", "R1.", "R.1", "R1.234", "D1", "ab10cd", "R 1"] {
        assert_eq!(parse_recovery_code(bad), None, "input {:?}", bad);
    }
}

#[test]
fn lettered_codes_take_no_junk_but_low_codes_do() {
    assert_eq!(parse_disposal_code("ab10cd"), None);
    assert_eq!(parse_recovery_code("ab10cd"), None);
    assert_eq!(parse_low_code("ab10cd"), Some("10".to_string()));
}

#[test]
fn low_code_shapes() {
    assert_eq!(parse_low_code("12"), Some("12".to_string()));
    assert_eq!(parse_low_code("1234"), Some("1234".to_string()));
    assert_eq!(parse_low_code("123456"), Some("123456".to_string()));
    assert_eq!(parse_low_code("123456*"), Some("123456*".to_string()));
    assert_eq!(parse_low_code("12 34 56*"), Some("123456*".to_string()));
    for bad in [
        "1", "123", "12345", "1234567", "12*", "1234*", "*123456", "123*456", "123456**", "*",
        "**", "abc", "12345*6",
    ] {
        assert_eq!(parse_low_code(bad), None, "input {:?}", bad);
    }
}

#[test]
fn low_code_drops_digits_of_other_scripts() {
    assert_eq!(parse_low_code("1٣2"), Some("12".to_string()));
}

#[test]
fn family_names_in_any_case() {
    assert_eq!(family_of_name("disposalcode"), Some(CodeFamily::Disposal));
    assert_eq!(family_of_name("DisposalCode"), Some(CodeFamily::Disposal));
    assert_eq!(family_of_name("RECOVERYCODE"), Some(CodeFamily::Recovery));
    assert_eq!(family_of_name("loWCode"), Some(CodeFamily::ListOfWaste));
    assert_eq!(family_of_name(""), None);
    assert_eq!(family_of_name("lowcode "), None);
    assert_eq!(family_of_name("low code"), None);
    assert_eq!(family_of_name("codes"), None);
}

#[test]
fn env_code_dispatches_by_family() {
    assert_eq!(parse_env_code(" bla", "loWCode"), None);
    assert_eq!(parse_env_code(" d5 ", "DISPOSALCODE"), Some("D5".to_string()));
    assert_eq!(parse_env_code(" d5 ", "recoverycode"), None);
    assert_eq!(parse_env_code("r3.1", "RecoveryCode"), Some("R3.1".to_string()));
    assert_eq!(parse_env_code("d5", "lowcode"), None);
    assert_eq!(parse_env_code("x 12 y", "lowcode"), Some("12".to_string()));
}

#[test]
fn env_code_wants_text_and_a_known_family() {
    assert_eq!(parse_env_code("", "lowcode"), None);
    assert_eq!(parse_env_code("12", ""), None);
    assert_eq!(parse_env_code("12", "wastecode"), None);
    assert_eq!(parse_env_code("D1", "disposal"), None);
}

fn texts_over(alphabet: &[char], count: usize, longest: u64) -> Vec<String> {
    let mut texts = Vec::new();
    let mut state: u64 = 0x2545_F491_4F6C_DD1D;
    for _ in 0..count {
        let mut text = String::new();
        state = state.wrapping_mul(6364136223846793005).wrapping_add(1442695040888963407);
        let len = (state >> 33) % (longest + 1);
        for _ in 0..len {
            state = state.wrapping_mul(6364136223846793005).wrapping_add(1442695040888963407);
            text.push(alphabet[((state >> 33) % alphabet.len() as u64) as usize]);
        }
        texts.push(text);
    }
    texts
}

fn upper_first_of(word: &str) -> String {
    let mut c = word.chars();
    match c.next() {
        None => String::new(),
        Some(ch) => ch.to_uppercase().collect::<String>() + c.as_str(),
    }
}

#[test]
fn lettered_codes_agree_with_the_patterns_on_generated_texts() {
    let disposal = regex::Regex::new(r"(?i)^D\d{1,2}$|^D\d{1,2}\.\d{1,2}$").unwrap();
    let recovery = regex::Regex::new(r"(?i)^R\d{1,2}$|^R\d{1,2}\.\d{1,2}$").unwrap();
    let alphabet = ['d', 'D', 'r', 'R', '.', '0', '1', '7', '9', ' ', '\n', 'x', '*'];
    for text in texts_over(&alphabet, 20000, 8) {
        let san = text.trim();
        let by_pattern = if disposal.is_match(san) { Some(upper_first_of(san)) } else { None };
        assert_eq!(parse_disposal_code(&text), by_pattern, "input {:?}", text);
        let by_pattern = if recovery.is_match(san) { Some(upper_first_of(san)) } else { None };
        assert_eq!(parse_recovery_code(&text), by_pattern, "input {:?}", text);
    }
}

#[test]
fn low_codes_agree_with_the_patterns_on_generated_texts() {
    let junk = regex::Regex::new("[^0-9*]").unwrap();
    let shape = regex::Regex::new(r"^\d{2}$|^\d{4}$|^\d{6}$|^\d{6}\*$").unwrap();
    let alphabet = ['0', '1', '5', '9', '*', ' ', 'a', '.', '٣'];
    for text in texts_over(&alphabet, 20000, 10) {
        let san = junk.replace_all(&text, "");
        let by_pattern = if shape.is_match(&san) { Some(san.to_string()) } else { None };
        assert_eq!(parse_low_code(&text), by_pattern, "input {:?}", text);
    }
}
