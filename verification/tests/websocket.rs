use blitzortung_srv::websocket::decode;

#[test]
fn decode_empty_string() {
    assert_eq!(decode(""), "");
}

#[test]
fn decode_single_char() {
    assert_eq!(decode("a"), "a");
}

#[test]
fn decode_two_chars() {
    assert_eq!(decode("ab"), "ab");
}

#[test]
fn decode_plain_ascii() {
    assert_eq!(decode("{\"key\":\"value\"}"), "{\"key\":\"value\"}");
}

#[test]
fn decode_with_special_char() {
    // Code 262 stands for the seventh entry of the table.
    let source = format!("{{\"time\":16501358936120880{}}}", '\u{0106}');
    assert_eq!(decode(&source), "{\"time\":16501358936120880\":}");
}

/// An encoder to the decoder's table.
fn encode(text: &str) -> String {
    let mut table: std::collections::HashMap<String, u32> = std::collections::HashMap::new();
    let mut next: u32 = 256;
    let mut phrase = String::new();
    let mut out = String::new();
    for c in text.chars() {
        let mut longer = phrase.clone();
        longer.push(c);
        if phrase.is_empty() || table.contains_key(&longer) {
            phrase = longer;
        } else {
            let code = match table.get(&phrase) {
                Some(code) => *code,
                None => phrase.chars().next().unwrap() as u32,
            };
            out.push(char::from_u32(code).unwrap());
            table.insert(longer, next);
            next += 1;
            phrase = c.to_string();
        }
    }
    if !phrase.is_empty() {
        let code = match table.get(&phrase) {
            Some(code) => *code,
            None => phrase.chars().next().unwrap() as u32,
        };
        out.push(char::from_u32(code).unwrap());
    }
    out
}

#[test]
fn a_repetitive_message_reads_back() {
    let message = "{\"time\":1650135893612088000,\"lat\":-32.100525,\"lon\":-61.864059,\"alt\":0,\
                   \"pol\":0,\"mds\":11052,\"mcg\":216,\"status\":0,\"region\":9,\
                   \"sig\":[{\"sta\":1,\"time\":7,\"lat\":-32.1,\"lon\":-61.8},\
                   {\"sta\":2,\"time\":7,\"lat\":-32.1,\"lon\":-61.8}]}";
    let compressed = encode(message);
    assert!(compressed.chars().count() < message.chars().count());
    assert_eq!(decode(&compressed), message);
}

#[test]
fn a_code_may_name_the_entry_that_is_being_made() {
    // "aaa" packs into the letter and the entry that follows it.
    assert_eq!(decode("a\u{0100}"), "aaa");
    assert_eq!(encode("aaa"), "a\u{0100}");
}

#[test]
fn bytes_of_a_literal_message_pass_unchanged() {
    let text: String = (0u8..=255).map(char::from).collect();
    assert_eq!(decode(&text), text);
}
