use notes_sync::note_format::{decode_note, encode_note};
use notes_sync::types::Note;

fn format_note(id: Option<i64>, title: &str, content: &str, created_at: i64, updated_at: i64) -> Note {
    Note { id, title: title.to_string(), content: content.to_string(), created_at, updated_at }
}

fn format_text(note: &Note) -> String {
    String::from_utf8(encode_note(note)).unwrap()
}

#[test]
fn encode_writes_fields_in_order() {
    let note = format_note(Some(1), "Test Note", "Test Content", 0, 0);
    assert_eq!(
        format_text(&note),
        "{\"id\":1,\"title\":\"Test Note\",\"content\":\"Test Content\",\"created_at\":0,\"updated_at\":0}"
    );
}

#[test]
fn encode_writes_absent_id_as_null() {
    let note = format_note(None, "a", "b", 1700000000, 1700000001);
    assert_eq!(
        format_text(&note),
        "{\"id\":null,\"title\":\"a\",\"content\":\"b\",\"created_at\":1700000000,\"updated_at\":1700000001}"
    );
}

#[test]
fn encode_writes_extreme_integers() {
    let note = format_note(Some(i64::MIN), "", "", i64::MAX, -1);
    assert_eq!(
        format_text(&note),
        "{\"id\":-9223372036854775808,\"title\":\"\",\"content\":\"\",\"created_at\":9223372036854775807,\"updated_at\":-1}"
    );
}

#[test]
fn encode_escapes_quotes_backslashes_and_controls() {
    let note = format_note(Some(7), "say \"hi\"\\", "a\nb\tc\rd\u{8}e\u{c}f\u{1}g\u{1f}h\u{7f}", 0, 0);
    assert_eq!(
        format_text(&note),
        "{\"id\":7,\"title\":\"say \\\"hi\\\"\\\\\",\"content\":\"a\\nb\\tc\\rd\\be\\ff\\u0001g\\u001fh\u{7f}\",\"created_at\":0,\"updated_at\":0}"
    );
}

#[test]
fn encode_keeps_text_outside_ascii_as_it_is() {
    let note = format_note(Some(2), "caf\u{e9} \u{1f600}", "\u{65e5}\u{672c}\u{8a9e}", 5, 6);
    assert_eq!(
        format_text(&note),
        "{\"id\":2,\"title\":\"caf\u{e9} \u{1f600}\",\"content\":\"\u{65e5}\u{672c}\u{8a9e}\",\"created_at\":5,\"updated_at\":6}"
    );
}

#[test]
fn encode_escapes_texts_as_serde_json_does() {
    let samples = [
        "",
        "plain",
        "quote \" and backslash \\",
        "line\nbreak\r\n\ttab",
        "\u{0}\u{1}\u{2}\u{7}\u{8}\u{b}\u{c}\u{e}\u{1f} \u{7f}",
        "caf\u{e9} \u{1f600} \u{65e5}\u{672c}\u{8a9e}",
        "/slash <tag> & 'single'",
    ];
    for sample in samples {
        let note = format_note(Some(3), sample, sample, -4, 4);
        let quoted = serde_json::to_string(sample).unwrap();
        let expected = format!(
            "{{\"id\":3,\"title\":{},\"content\":{},\"created_at\":-4,\"updated_at\":4}}",
            quoted, quoted
        );
        assert_eq!(format_text(&note), expected);
    }
}

#[test]
fn encoded_note_is_the_json_object_of_its_fields() {
    let note = format_note(Some(42), "T \"x\"", "C\n", 10, 20);
    let value: serde_json::Value = serde_json::from_slice(&encode_note(&note)).unwrap();
    assert_eq!(value.get("id").and_then(|v| v.as_i64()), Some(42));
    assert_eq!(value.get("title").and_then(|v| v.as_str()), Some("T \"x\""));
    assert_eq!(value.get("content").and_then(|v| v.as_str()), Some("C\n"));
    assert_eq!(value.get("created_at").and_then(|v| v.as_i64()), Some(10));
    assert_eq!(value.get("updated_at").and_then(|v| v.as_i64()), Some(20));
    assert_eq!(value.as_object().map(|o| o.len()), Some(5));
}

#[test]
fn decode_reads_back_what_encode_wrote() {
    let notes = vec![
        format_note(Some(1), "Test Note", "Test Content", 0, 0),
        format_note(None, "", "", 0, 0),
        format_note(Some(i64::MIN), "a\"b\\c", "\u{0}\u{1f}\n\r\t\u{8}\u{c}", i64::MIN, i64::MAX),
        format_note(Some(i64::MAX), "caf\u{e9} \u{1f600}", "\u{65e5}\u{672c}\u{8a9e}", -7, 7),
        format_note(Some(0), "null", "{\"id\":1}", 1, 2),
    ];
    for note in notes {
        assert_eq!(decode_note(&encode_note(&note)), Some(note));
    }
}

#[test]
fn decode_reads_a_given_text() {
    let text = "{\"id\":5,\"title\":\"A\\u0001\\n\",\"content\":\"\\\"q\\\"\",\"created_at\":-3,\"updated_at\":12}";
    assert_eq!(
        decode_note(text.as_bytes()),
        Some(format_note(Some(5), "A\u{1}\n", "\"q\"", -3, 12))
    );
}

#[test]
fn decode_refuses_what_is_not_canonical() {
    let refused = [
        "",
        "{}",
        "null",
        "{\"id\":1,\"title\":\"a\",\"content\":\"b\",\"created_at\":0,\"updated_at\":0} ",
        " {\"id\":1,\"title\":\"a\",\"content\":\"b\",\"created_at\":0,\"updated_at\":0}",
        "{\"id\": 1,\"title\":\"a\",\"content\":\"b\",\"created_at\":0,\"updated_at\":0}",
        "{\"title\":\"a\",\"id\":1,\"content\":\"b\",\"created_at\":0,\"updated_at\":0}",
        "{\"id\":01,\"title\":\"a\",\"content\":\"b\",\"created_at\":0,\"updated_at\":0}",
        "{\"id\":-0,\"title\":\"a\",\"content\":\"b\",\"created_at\":0,\"updated_at\":0}",
        "{\"id\":+1,\"title\":\"a\",\"content\":\"b\",\"created_at\":0,\"updated_at\":0}",
        "{\"id\":-,\"title\":\"a\",\"content\":\"b\",\"created_at\":0,\"updated_at\":0}",
        "{\"id\":9223372036854775808,\"title\":\"a\",\"content\":\"b\",\"created_at\":0,\"updated_at\":0}",
        "{\"id\":-9223372036854775809,\"title\":\"a\",\"content\":\"b\",\"created_at\":0,\"updated_at\":0}",
        "{\"id\":1,\"title\":\"\\u0041\",\"content\":\"b\",\"created_at\":0,\"updated_at\":0}",
        "{\"id\":1,\"title\":\"\\u001F\",\"content\":\"b\",\"created_at\":0,\"updated_at\":0}",
        "{\"id\":1,\"title\":\"\\/\",\"content\":\"b\",\"created_at\":0,\"updated_at\":0}",
        "{\"id\":1,\"title\":\"\\x\",\"content\":\"b\",\"created_at\":0,\"updated_at\":0}",
        "{\"id\":1,\"title\":\"a\nb\",\"content\":\"b\",\"created_at\":0,\"updated_at\":0}",
        "{\"id\":1,\"title\":\"a\",\"content\":\"b\",\"created_at\":0}",
        "{\"id\":1,\"title\":\"a\",\"content\":\"b\",\"created_at\":0,\"updated_at\":0",
        "{\"id\":1,\"title\":\"a\",\"content\":\"b\",\"created_at\":0,\"updated_at\":0}}",
        "{\"id\":1,\"title\":\"a\",\"content\":\"b\",\"created_at\":null,\"updated_at\":0}",
        "{\"id\":1,\"title\":\"a,\"content\":\"b\",\"created_at\":0,\"updated_at\":0}",
        "{\"id\":1,\"title\":\"a\",\"content\":\"b\\\",\"created_at\":0,\"updated_at\":0}",
        "[1,\"a\",\"b\",0,0]",
    ];
    for text in refused {
        assert_eq!(decode_note(text.as_bytes()), None, "{}", text);
    }
}

#[test]
fn decode_refuses_bytes_that_are_not_utf8() {
    let mut bytes = b"{\"id\":1,\"title\":\"".to_vec();
    bytes.push(0xff);
    bytes.extend_from_slice(b"\",\"content\":\"b\",\"created_at\":0,\"updated_at\":0}");
    assert_eq!(decode_note(&bytes), None);
    let mut truncated = b"{\"id\":1,\"title\":\"a\",\"content\":\"".to_vec();
    truncated.extend_from_slice(&[0xe6, 0x97]);
    truncated.extend_from_slice(b"\",\"created_at\":0,\"updated_at\":0}");
    assert_eq!(decode_note(&truncated), None);
}

#[test]
fn two_notes_never_share_a_form() {
    let notes = [
        format_note(Some(1), "a", "b", 0, 0),
        format_note(Some(1), "a\",\"content\":\"b", "", 0, 0),
        format_note(Some(1), "a", "b\",\"created_at\":0", 0, 0),
        format_note(None, "a", "b", 0, 0),
        format_note(Some(10), "a", "b", 0, 0),
        format_note(Some(1), "a", "b", 0, 1),
    ];
    for (i, first) in notes.iter().enumerate() {
        for (j, second) in notes.iter().enumerate() {
            assert_eq!(encode_note(first) == encode_note(second), i == j);
        }
    }
}
