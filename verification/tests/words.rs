use wordcount::count::count_pairs;
use wordcount::count_words;
use wordcount::decode::decode_words;
use wordcount::encode::encode_counts;
use wordcount::handle_words;

fn b(s: &str) -> Vec<u8> {
    s.as_bytes().to_vec()
}

fn sorted_pairs(words: &[&str]) -> Vec<(Vec<u8>, u64)> {
    let list: Vec<Vec<u8>> = words.iter().map(|w| b(w)).collect();
    let mut pairs = count_pairs(&list);
    pairs.sort();
    pairs
}

fn counts_value(body: &[u8]) -> serde_json::Value {
    let v: serde_json::Value = serde_json::from_slice(body).expect("response must be JSON");
    v.get("counts").expect("response must hold counts").clone()
}

#[test]
fn empty_input() {
    let reply = handle_words(&b("{\"words\":[]}"), 1000);
    assert_eq!(reply.status, 200);
    assert_eq!(reply.body, b("{\"counts\":{}}"));
}

#[test]
fn decode_failure_numbers() {
    assert!(count_words(&b("{\"words\": [1,2,3]}")).is_err());
    let reply = handle_words(&b("{\"words\": [1,2,3]}"), 1000);
    assert_eq!(reply.status, 400);
}

#[test]
fn missing_words_field() {
    assert!(count_words(&b("{}")).is_err());
    let reply = handle_words(&b("{}"), 1000);
    assert_eq!(reply.status, 400);
}

#[test]
fn example_end_to_end() {
    let reply = handle_words(&b("{\"words\":[\"word\",\"word\",\"wat\",\"word\"]}"), 1000);
    assert_eq!(reply.status, 200);
    let counts = counts_value(&reply.body);
    let obj = counts.as_object().expect("counts must be an object");
    assert_eq!(obj.len(), 2);
    assert_eq!(obj.get("word").and_then(|v| v.as_u64()), Some(3));
    assert_eq!(obj.get("wat").and_then(|v| v.as_u64()), Some(1));
}

#[test]
fn oversized_body() {
    let body = b("{\"words\":[\"word\"]}");
    let reply = handle_words(&body, body.len() - 1);
    assert_eq!(reply.status, 413);
    let exact = handle_words(&body, body.len());
    assert_eq!(exact.status, 200);
}

#[test]
fn unicode_words_counted_by_exact_bytes() {
    let reply = handle_words(
        &b("{\"words\":[\"h\u{e9}llo\",\"h\u{e9}llo\",\"\u{65e5}\u{672c}\"]}"),
        1000,
    );
    assert_eq!(reply.status, 200);
    let counts = counts_value(&reply.body);
    assert_eq!(counts.get("h\u{e9}llo").and_then(|v| v.as_u64()), Some(2));
    assert_eq!(
        counts.get("\u{65e5}\u{672c}").and_then(|v| v.as_u64()),
        Some(1)
    );
}

#[test]
fn escaped_and_raw_spellings_are_one_word() {
    // "\u0041" and "A" decode to the same word
    let reply = handle_words(&b("{\"words\":[\"\\u0041\",\"A\"]}"), 1000);
    assert_eq!(reply.status, 200);
    let counts = counts_value(&reply.body);
    assert_eq!(counts.get("A").and_then(|v| v.as_u64()), Some(2));
}

#[test]
fn surrogate_pair_escape_decodes() {
    let reply = handle_words(&b("{\"words\":[\"\\uD83D\\uDE00\"]}"), 1000);
    assert_eq!(reply.status, 200);
    let counts = counts_value(&reply.body);
    assert_eq!(counts.get("\u{1f600}").and_then(|v| v.as_u64()), Some(1));
}

#[test]
fn lone_surrogate_is_refused() {
    assert!(decode_words(&b("{\"words\":[\"\\uD83D\"]}")).is_err());
    assert!(decode_words(&b("{\"words\":[\"\\uDE00\"]}")).is_err());
}

#[test]
fn short_escapes_decode() {
    let words = decode_words(&b("{\"words\":[\"a\\n\\t\\\"\\\\b\\/\"]}")).expect("must decode");
    assert_eq!(words, vec![b("a\n\t\"\\b/")]);
}

#[test]
fn decoder_accepts_whitespace_and_unknown_members() {
    let body = b(" { \"extra\" : {\"x\": [1, -2.5e+10, true, null]} , \"words\" : [ \"a\" , \"b\" ] , \"more\": \"y\" } ");
    let words = decode_words(&body).expect("must decode");
    assert_eq!(words, vec![b("a"), b("b")]);
}

#[test]
fn decoder_refuses_malformed_bodies() {
    assert!(decode_words(&b("")).is_err());
    assert!(decode_words(&b("null")).is_err());
    assert!(decode_words(&b("[\"words\"]")).is_err());
    assert!(decode_words(&b("{\"words\":\"a\"}")).is_err());
    assert!(decode_words(&b("{\"words\":[\"a\"]")).is_err());
    assert!(decode_words(&b("{\"words\":[\"a\"]} x")).is_err());
    assert!(decode_words(&b("{\"words\":[\"a\",]}")).is_err());
    assert!(decode_words(&b("{\"words\":[\"a\"] \"k\":1}")).is_err());
}

#[test]
fn decoder_refuses_duplicate_words_member() {
    assert!(decode_words(&b("{\"words\":[\"a\"],\"words\":[\"b\"]}")).is_err());
}

#[test]
fn decoder_refuses_bad_numbers_in_skipped_values() {
    assert!(decode_words(&b("{\"n\":01,\"words\":[]}")).is_err());
    assert!(decode_words(&b("{\"n\":1.,\"words\":[]}")).is_err());
    assert!(decode_words(&b("{\"n\":1e,\"words\":[]}")).is_err());
    let ok = decode_words(&b("{\"n\":-0.25e-3,\"words\":[]}"));
    assert!(ok.is_ok());
}

#[test]
fn decoder_refuses_raw_control_bytes_in_strings() {
    let mut body = b("{\"words\":[\"a");
    body.push(0x01);
    body.extend_from_slice(b"\"]}");
    assert!(decode_words(&body).is_err());
}

#[test]
fn decoder_refuses_ill_formed_utf8() {
    let mut body = b("{\"words\":[\"a");
    body.push(0xff);
    body.extend_from_slice(b"\"]}");
    assert!(decode_words(&body).is_err());
}

#[test]
fn counting_is_deterministic() {
    let first = sorted_pairs(&["b", "a", "b", "c", "a", "b"]);
    let second = sorted_pairs(&["b", "a", "b", "c", "a", "b"]);
    assert_eq!(first, second);
    assert_eq!(
        first,
        vec![(b("a"), 2), (b("b"), 3), (b("c"), 1)]
    );
}

#[test]
fn counts_sum_to_list_length() {
    let list: Vec<Vec<u8>> = ["x", "y", "x", "z", "x", "y", "w"]
        .iter()
        .map(|w| b(w))
        .collect();
    let pairs = count_pairs(&list);
    let total: u64 = pairs.iter().map(|p| p.1).sum();
    assert_eq!(total as usize, list.len());
}

#[test]
fn keys_are_exactly_the_words_seen() {
    let list: Vec<Vec<u8>> = ["x", "y", "x"].iter().map(|w| b(w)).collect();
    let pairs = count_pairs(&list);
    let mut keys: Vec<Vec<u8>> = pairs.iter().map(|p| p.0.clone()).collect();
    keys.sort();
    assert_eq!(keys, vec![b("x"), b("y")]);
    assert!(!keys.contains(&b("z")));
}

#[test]
fn encoder_emits_exact_bytes_in_pair_order() {
    let out = encode_counts(&vec![(b("a"), 2), (b("b"), 10)]);
    assert_eq!(out, b("{\"counts\":{\"a\":2,\"b\":10}}"));
}

#[test]
fn encoder_escapes_keys() {
    let out = encode_counts(&vec![(b("a\"b\\c\nd"), 1), (b("\u{1}"), 2)]);
    let counts = counts_value(&out);
    assert_eq!(counts.get("a\"b\\c\nd").and_then(|v| v.as_u64()), Some(1));
    assert_eq!(counts.get("\u{1}").and_then(|v| v.as_u64()), Some(2));
}

#[test]
fn error_replies_carry_a_message() {
    let reply = handle_words(&b("{"), 1000);
    assert_eq!(reply.status, 400);
    assert_eq!(reply.body, b("bad request"));
    let big = handle_words(&b("{\"words\":[]}"), 3);
    assert_eq!(big.status, 413);
    assert_eq!(big.body, b("payload too large"));
}

#[test]
fn decoder_agrees_with_a_reference_json_parser() {
    let bodies: Vec<&str> = vec![
        "{\"words\":[]}",
        " { \"words\" : [ ] } ",
        "{\"words\":[\"a\"]}",
        "{\"words\":[\"a\",\"b\",\"a\"]}",
        "{\"words\":[\"\"]}",
        "{\"words\":[\"a b\",\"\\n\",\"\\u0041\",\"\\uD83D\\uDE00\",\"/\",\"\\/\"]}",
        "{\"words\":[\"h\u{e9}llo\",\"\u{65e5}\u{672c}\"]}",
        "{\"x\":1,\"words\":[\"a\"],\"y\":[{\"z\":[true,false,null]}]}",
        "{\"n\":0,\"words\":[]}",
        "{\"n\":-0.25e+3,\"words\":[]}",
        "{\"n\":1E5,\"words\":[]}",
        "{\"s\":\"skip me \\u0041\",\"words\":[\"a\"]}",
        "{\"o\":{\"a\":{\"b\":[[],{}]}},\"words\":[\"a\"]}",
        "{\"words\":[[]]}",
        "{\"words\":[{}]}",
        "{\"words\":[null]}",
        "{\"words\":[true]}",
        "{\"words\":[1,2,3]}",
        "{\"words\":{}}",
        "{\"words\":null}",
        "{\"words\":\"a\"}",
        "{\"\\u0077ords\":[\"a\"]}",
        "{\"Words\":[\"a\"]}",
        "{}",
        "[]",
        "null",
        "true",
        "\"words\"",
        "",
        "   ",
        "{",
        "{\"words\":[\"a\"]",
        "{\"words\":[\"a\"]}x",
        "{\"words\":[\"a\"],}",
        "{\"words\":[\"a\",]}",
        "{\"words\" [\"a\"]}",
        "{\"n\":01,\"words\":[]}",
        "{\"n\":1.,\"words\":[]}",
        "{\"n\":.5,\"words\":[]}",
        "{\"n\":+1,\"words\":[]}",
        "{\"n\":1e,\"words\":[]}",
        "{\"words\":[\"\\uD83D\"]}",
        "{\"words\":[\"\\uDE00\"]}",
        "{\"words\":[\"\\q\"]}",
        "{\"words\":[\"a\\\"]}",
    ];
    for body in bodies {
        let mine: Option<Vec<Vec<u8>>> = decode_words(&b(body)).ok();
        let reference: Option<Vec<Vec<u8>>> =
            serde_json::from_slice::<serde_json::Value>(body.as_bytes())
                .ok()
                .and_then(|v| {
                    let arr = v.as_object()?.get("words")?.as_array()?.clone();
                    let mut out: Vec<Vec<u8>> = Vec::new();
                    for x in arr {
                        out.push(x.as_str()?.as_bytes().to_vec());
                    }
                    Some(out)
                });
        assert_eq!(mine, reference, "disagreement on body: {:?}", body);
    }
}
