use httped::random::new_rng;
use httped::sse::{
    counter_comment, random_comment, random_event_head, random_event_text, random_string, split_json,
    split_json_text, split_text, CounterStream, RandomStream,
};
use httped::text::{decimal_string, split_lines};

fn sse_body(events: &[String]) -> String {
    events.iter().map(|e| format!("data:{e}\n\n")).collect()
}

fn run_counter(count: u32, json: bool) -> Vec<String> {
    let mut s = CounterStream::new(count, json);
    let mut out = Vec::new();
    while let Some(d) = s.step() {
        out.push(d);
    }
    assert!(s.step().is_none());
    out
}

#[test]
fn counter_text_stream() {
    let events = run_counter(3, false);
    assert_eq!(sse_body(&events), "data:1\n\ndata:2\n\ndata:3\n\n");
    assert_eq!(counter_comment(3, false), "/sse/counter/text/3");
    assert!(run_counter(0, false).is_empty());
}

#[test]
fn counter_json_stream() {
    let events = run_counter(3, true);
    assert_eq!(sse_body(&events), "data:{\"count\":1}\n\ndata:{\"count\":2}\n\ndata:{\"count\":3}\n\n");
    assert_eq!(counter_comment(3, true), "/sse/counter/json/3");
}

#[test]
fn split_text_stream() {
    let events = split_text("Hello\nWorld\nThis\r\nIs\nA\nTest");
    assert_eq!(sse_body(&events), "data:Hello\n\ndata:World\n\ndata:This\n\ndata:Is\n\ndata:A\n\ndata:Test\n\n");
}

#[test]
fn split_json_stream() {
    let body = r#"{"foo":"bar","baz":[1,2,3],"nested":{"a":true,"b":null,"c":3.14}}"#;
    let events = split_json(body.as_bytes()).unwrap();
    assert_eq!(
        sse_body(&events),
        "data:{\n\ndata:  \"baz\": [\n\ndata:    1,\n\ndata:    2,\n\ndata:    3\n\ndata:  ],\n\ndata:  \"foo\": \"bar\",\n\ndata:  \"nested\": {\n\ndata:    \"a\": true,\n\ndata:    \"b\": null,\n\ndata:    \"c\": 3.14\n\ndata:  }\n\ndata:}\n\n"
    );
    let e = split_json_text(None).unwrap_err();
    assert_eq!((e.status, e.brief.as_str()), (400, "Invalid JSON body"));
    let e = split_json(b"{not json").unwrap_err();
    assert_eq!((e.status, e.name.as_str(), e.brief.as_str()), (400, "Bad Request", "Invalid JSON body"));
    assert_eq!(split_json(b"3").unwrap(), vec!["3".to_string()]);
}

#[test]
fn lines_split_like_str_lines() {
    for text in ["", "\n", "a", "a\n", "a\r", "a\r\n", "a\n\nb", "\r\n\r\n", "x\ry\nz", "a\n\n", "é\r\n🤗"] {
        let ours = split_lines(text);
        let std: Vec<String> = text.lines().map(|l| l.to_string()).collect();
        assert_eq!(ours, std, "{text:?}");
    }
}

#[test]
fn joined_lines_split_back() {
    let words = ["one", "", "three\rx", "4"];
    assert_eq!(split_lines(&words.join("\n")), words);
    assert_eq!(split_lines("abc\n"), split_lines("abc"));
}

#[test]
fn decimal_strings() {
    for n in [0u32, 1, 9, 10, 99, 100, 12345, u32::MAX] {
        assert_eq!(decimal_string(n), n.to_string());
    }
}

#[test]
fn random_events_are_random_words() {
    let mut rng = new_rng(Some(3));
    for _ in 0..50 {
        let w = random_string(&mut rng);
        assert!((4..=32).contains(&w.len()));
        assert!(w.chars().all(|c| c.is_ascii_alphanumeric()));
    }
    for k in 0..6 {
        let t = random_event_text(&mut rng, k);
        let lines: Vec<&str> = if k == 0 { vec![] } else { t.split('\n').collect() };
        assert_eq!(lines.len(), k);
        assert!(lines.iter().all(|l| (4..=32).contains(&l.len())));
    }
    for _ in 0..50 {
        let h = random_event_head(&mut rng);
        for part in [h.comment, h.id, h.name].into_iter().flatten() {
            assert!((4..=32).contains(&part.len()));
        }
    }
    let mut a = new_rng(Some(9));
    let mut b = new_rng(Some(9));
    assert_eq!(random_event_text(&mut a, 3), random_event_text(&mut b, 3));
    assert_eq!(random_string(&mut a), random_string(&mut b));
    let (mut a, mut b) = (new_rng(Some(11)), new_rng(Some(11)));
    for _ in 0..20 {
        let (ha, hb) = (random_event_head(&mut a), random_event_head(&mut b));
        assert_eq!((ha.comment, ha.id, ha.name), (hb.comment, hb.id, hb.name));
    }
}

#[test]
fn random_streams_count_their_events() {
    let mut s = RandomStream::new(2);
    assert!(s.start_event());
    assert!(s.start_event());
    assert!(!s.start_event());
    assert_eq!(random_comment(2), "/sse/random-string/2");
}

#[test]
fn json_events_join_back_to_the_printed_document() {
    let body = r#"{"z":[1,{"y":"a\r\nb"}],"a":null}"#;
    let value: serde_json::Value = serde_json::from_str(body).unwrap();
    let printed = serde_json::to_string_pretty(&value).unwrap();
    let events = split_json(body.as_bytes()).unwrap();
    assert_eq!(events.join("\n"), printed);
    let back: serde_json::Value = serde_json::from_str(&events.join("\n")).unwrap();
    assert_eq!(back, value);
    let text = "one\n\ntwo\nthree";
    assert_eq!(split_lines(text).join("\n"), text);
}
