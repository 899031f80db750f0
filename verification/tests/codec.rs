use evidence_store::models::{Person, PersonInfo, Quote};
use evidence_store::record::{parse_person, render_person};

fn sample_person() -> Person {
    Person {
        id: String::from("7f1c2d3e-aaaa-bbbb-cccc-0123456789ab"),
        name: String::from("Jane \"JD\" Doe \\ friend"),
        created_at: String::from("2024-01-01T10:00:00+00:00"),
        updated_at: String::from("2024-01-02T11:30:00+00:00"),
        notes: String::from("line one\nline two\ttabbed, controls: \u{1}\u{1f}"),
        tags: vec![String::from("alpha"), String::from(""), String::from("Grüße 東京 😀")],
        information: vec![
            PersonInfo {
                id: String::from("i-1"),
                info_type: String::from("phone"),
                value: String::from("+1 555 0100"),
                created_at: String::from("2024-01-01T10:05:00+00:00"),
            },
            PersonInfo {
                id: String::from("i-2"),
                info_type: String::from("phone"),
                value: String::from("+1 555 0101"),
                created_at: String::from("2024-01-01T10:06:00+00:00"),
            },
        ],
        quotes: vec![
            Quote {
                id: String::from("q-1"),
                person_id: String::from("7f1c2d3e-aaaa-bbbb-cccc-0123456789ab"),
                quote: String::from("Hello"),
                date: String::from("2024-01-01"),
                time: Some(String::from("12:00")),
                place: None,
                created_at: String::from("2024-01-01T12:00:00+00:00"),
            },
        ],
    }
}

fn assert_same_person(a: &Person, b: &Person) {
    assert_eq!(a.id, b.id);
    assert_eq!(a.name, b.name);
    assert_eq!(a.created_at, b.created_at);
    assert_eq!(a.updated_at, b.updated_at);
    assert_eq!(a.notes, b.notes);
    assert_eq!(a.tags, b.tags);
    assert_eq!(a.information.len(), b.information.len());
    for (x, y) in a.information.iter().zip(b.information.iter()) {
        assert_eq!(x.id, y.id);
        assert_eq!(x.info_type, y.info_type);
        assert_eq!(x.value, y.value);
        assert_eq!(x.created_at, y.created_at);
    }
    assert_eq!(a.quotes.len(), b.quotes.len());
    for (x, y) in a.quotes.iter().zip(b.quotes.iter()) {
        assert_eq!(x.id, y.id);
        assert_eq!(x.person_id, y.person_id);
        assert_eq!(x.quote, y.quote);
        assert_eq!(x.date, y.date);
        assert_eq!(x.time, y.time);
        assert_eq!(x.place, y.place);
        assert_eq!(x.created_at, y.created_at);
    }
}

#[test]
fn record_round_trip_full_person() {
    let p = sample_person();
    let text = render_person(&p);
    let q = parse_person(&text).expect("rendered record must parse");
    assert_same_person(&p, &q);
}

#[test]
fn record_round_trip_fresh_person() {
    let p = Person::new(String::from("Ada"));
    let text = render_person(&p);
    let q = parse_person(&text).expect("rendered record must parse");
    assert_same_person(&p, &q);
}

#[test]
fn rendered_record_exact_text() {
    let p = Person {
        id: String::from("x"),
        name: String::from("A B"),
        created_at: String::from("c"),
        updated_at: String::from("u"),
        notes: String::new(),
        tags: Vec::new(),
        information: Vec::new(),
        quotes: Vec::new(),
    };
    let text = render_person(&p);
    let expected = "{\n\"id\": \"x\",\n\"name\": \"A B\",\n\"created_at\": \"c\",\n\"updated_at\": \"u\",\n\"notes\": \"\",\n\"tags\": [],\n\"information\": [],\n\"quotes\": []\n}";
    assert_eq!(text, expected);
}

#[test]
fn record_without_quotes_member_defaults_to_empty() {
    let text = "{\n\"id\": \"x\",\n\"name\": \"N\",\n\"created_at\": \"c\",\n\"updated_at\": \"u\",\n\"notes\": \"\",\n\"tags\": [\"t\"],\n\"information\": []\n}";
    let p = parse_person(text).expect("a record without quotes is accepted");
    assert_eq!(p.name, "N");
    assert_eq!(p.tags, vec![String::from("t")]);
    assert!(p.quotes.is_empty());
}

#[test]
fn record_members_in_any_order() {
    let text = "{ \"quotes\": [], \"information\": [], \"tags\": [], \"notes\": \"n\", \"updated_at\": \"u\", \"created_at\": \"c\", \"name\": \"N\", \"id\": \"x\" }";
    let p = parse_person(text).expect("member order must not matter");
    assert_eq!(p.id, "x");
    assert_eq!(p.notes, "n");
}

#[test]
fn record_with_unknown_members_is_accepted() {
    let text = "{\"id\": \"x\", \"name\": \"N\", \"created_at\": \"c\", \"updated_at\": \"u\", \"notes\": \"\", \"tags\": [], \"information\": [], \"quotes\": [], \"color\": \"red\", \"age\": 41}";
    let p = parse_person(text).expect("unknown members are ignored");
    assert_eq!(p.id, "x");
}

#[test]
fn quote_with_null_time_and_place() {
    let mut p = sample_person();
    p.quotes[0].time = None;
    p.quotes[0].place = None;
    let text = render_person(&p);
    assert!(text.contains("\"time\": null"));
    let q = parse_person(&text).expect("nulls round-trip");
    assert_eq!(q.quotes[0].time, None);
    assert_eq!(q.quotes[0].place, None);
}

#[test]
fn escapes_round_trip() {
    let mut p = sample_person();
    p.notes = String::from("quote: \" backslash: \\ slash: / newline:\ncr:\rtab:\tnul-ish: \u{b}");
    let text = render_person(&p);
    let q = parse_person(&text).expect("escaped text parses");
    assert_eq!(q.notes, p.notes);
}

#[test]
fn parser_accepts_standard_short_escapes() {
    let text = "{\"id\": \"a\\\"b\\\\c\\/d\\n\\t\\r\\b\\f\", \"name\": \"\\u0041\\u00e9\", \"created_at\": \"c\", \"updated_at\": \"u\", \"notes\": \"\", \"tags\": [], \"information\": [], \"quotes\": []}";
    let p = parse_person(text).expect("short escapes parse");
    assert_eq!(p.id, "a\"b\\c/d\n\t\r\u{8}\u{c}");
    assert_eq!(p.name, "Aé");
}

#[test]
fn malformed_records_are_parse_errors() {
    for text in [
        "",
        "{",
        "not json",
        "[]",
        "{\"id\": \"x\"}",
        "{\"id\": 7, \"name\": \"N\", \"created_at\": \"c\", \"updated_at\": \"u\", \"notes\": \"\", \"tags\": [], \"information\": [], \"quotes\": []}",
        "{\"id\": \"x\", \"name\": \"N\", \"created_at\": \"c\", \"updated_at\": \"u\", \"notes\": \"\", \"tags\": [3], \"information\": [], \"quotes\": []}",
        "{\"id\": \"x\", \"name\": \"N\", \"created_at\": \"c\", \"updated_at\": \"u\", \"notes\": \"\", \"tags\": [], \"information\": [], \"quotes\": []} trailing",
        "{\"id\": \"x\", \"name\": \"N\", \"created_at\": \"c\", \"updated_at\": \"u\", \"notes\": \"bad \\x escape\", \"tags\": [], \"information\": [], \"quotes\": []}",
    ] {
        assert!(parse_person(text).is_err(), "{text:?} should be malformed");
    }
}

#[test]
fn whitespace_around_record_is_accepted() {
    let text = "  \n\t {\"id\": \"x\", \"name\": \"N\", \"created_at\": \"c\", \"updated_at\": \"u\", \"notes\": \"\", \"tags\": [], \"information\": [], \"quotes\": []} \n ";
    assert!(parse_person(text).is_ok());
}
