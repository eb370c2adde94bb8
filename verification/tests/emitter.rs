use async_event_emitter::listener::{first_index_of_id, plan_emit};
use async_event_emitter::{AsyncEventEmitter, AsyncListener};

fn ids(calls: &[(String, Vec<u8>)]) -> Vec<String> {
    calls.iter().map(|c| c.0.clone()).collect()
}

fn listener_ids(em: &AsyncEventEmitter, event: &str) -> Vec<String> {
    em.listeners
        .get(event)
        .map(|entry| entry.value().iter().map(|l| l.id.clone()).collect())
        .unwrap_or_default()
}

fn limits(em: &AsyncEventEmitter, event: &str) -> Vec<Option<u64>> {
    em.listeners
        .get(event)
        .map(|entry| entry.value().iter().map(|l| l.limit).collect())
        .unwrap_or_default()
}

fn date() -> (String, String) {
    ("January".to_string(), "Tuesday".to_string())
}

#[test]
fn test_async_listener() {
    let listener = AsyncListener {
        limit: None,
        id: "1".to_string(),
    };

    assert_eq!(listener.limit, None);
    assert_eq!(listener.id.clone(), "1");

    let limit = Some(10);
    let id = "my-id".to_string();

    let listener = AsyncListener {
        limit,
        id: id.clone(),
    };

    assert_eq!(listener.limit, limit);
    assert_eq!(listener.id, id);
    println!("{listener:?}")
}

#[test]
fn new_emitter_has_no_events() {
    let em = AsyncEventEmitter::new();
    assert_eq!(em.listeners.len(), 0);
    let em: AsyncEventEmitter = Default::default();
    assert_eq!(em.listeners.len(), 0);
}

#[test]
fn emit_calls_every_listener_in_order_with_the_payload() {
    let mut em = AsyncEventEmitter::new();
    let first = em.on("LOG_DATE");
    let second = em.on("LOG_DATE");
    let bytes = bincode::serialize(&date()).unwrap();

    let calls = em
        .emit::<bincode::Error>("LOG_DATE", Ok(bytes.clone()))
        .unwrap()
        .0;

    assert_eq!(ids(&calls), vec![first.clone(), second.clone()]);
    for (_, payload) in &calls {
        assert_eq!(payload, &bytes);
    }
    assert!(em.listeners.contains_key("LOG_DATE"));
    assert_eq!(listener_ids(&em, "LOG_DATE"), vec![first, second]);
    assert_eq!(limits(&em, "LOG_DATE"), vec![None, None]);
}

#[test]
fn emit_hands_the_value_through_unchanged() {
    let mut em = AsyncEventEmitter::new();
    let payload = (date(), "LOG_DATE".to_string(), ("22".to_string(), "30".to_string()));
    em.on("LOG_DATE");

    let calls = em
        .emit::<bincode::Error>("LOG_DATE", bincode::serialize(&payload))
        .unwrap()
        .0;

    assert_eq!(calls.len(), 1);
    let back: ((String, String), String, (String, String)) =
        bincode::deserialize(&calls[0].1).unwrap();
    assert_eq!(back, payload);
}

#[test]
fn listens_once_with_multiple_emits() {
    let mut em = AsyncEventEmitter::new();
    let name = "LOG_DATE".to_string();
    let id = em.once("LOG_DATE");

    let (first, removed) = em
        .emit::<bincode::Error>("LOG_DATE", bincode::serialize(&(date(), name.clone())))
        .unwrap();
    assert_eq!(ids(&first), vec![id.clone()]);
    assert_eq!(removed, vec![id.clone()]);
    assert!(listener_ids(&em, "LOG_DATE").is_empty());
    assert!(em.remove_listener(&id).is_none());

    let second = em
        .emit::<bincode::Error>("LOG_DATE", bincode::serialize(&(date(), name)))
        .unwrap()
        .0;
    assert!(second.is_empty());

    assert_eq!(em.listeners.len(), 1);
    assert!(listener_ids(&em, "LOG_DATE").is_empty());
}

#[test]
fn remove_listeners() {
    let mut em = AsyncEventEmitter::new();
    let date_time = (
        ("11".to_string(), "03".to_string()),
        ("12".to_string(), "50".to_string()),
    );
    let listener_id = em.on("PING");
    let other = em.on("DateTime");

    let calls = em
        .emit::<bincode::Error>("PING", bincode::serialize(&String::from("pong")))
        .unwrap()
        .0;
    assert_eq!(ids(&calls), vec![listener_id.clone()]);
    let back: String = bincode::deserialize(&calls[0].1).unwrap();
    assert_eq!(&back, "pong");

    let calls = em
        .emit::<bincode::Error>("DateTime", bincode::serialize(&date_time))
        .unwrap()
        .0;
    assert_eq!(ids(&calls), vec![other.clone()]);
    assert!(!calls[0].1.is_empty());

    assert_eq!(em.remove_listener(&listener_id), Some(listener_id.clone()));
    assert!(listener_ids(&em, "PING").is_empty());
    assert_eq!(listener_ids(&em, "DateTime"), vec![other]);
    assert!(em.remove_listener("some").is_none());
    assert!(em.remove_listener(&listener_id).is_none());
}

#[test]
fn limited_listener_answers_exactly_its_limit() {
    let mut em = AsyncEventEmitter::new();
    let id = em.on_limited("Some event", Some(3));
    let mut answered = 0;
    for round in 0..3 {
        let (calls, removed) = em.emit::<()>("Some event", Ok(vec![0])).unwrap();
        assert_eq!(ids(&calls), vec![id.clone()]);
        answered += calls.len();
        if round < 2 {
            assert!(removed.is_empty());
            assert_eq!(limits(&em, "Some event"), vec![Some(2 - round)]);
        } else {
            assert_eq!(removed, vec![id.clone()]);
        }
    }
    assert_eq!(answered, 3);
    assert!(listener_ids(&em, "Some event").is_empty());
    assert!(em.remove_listener(&id).is_none());

    let (calls, removed) = em.emit::<()>("Some event", Ok(vec![0])).unwrap();
    assert!(calls.is_empty());
    assert!(removed.is_empty());

    let calls = em.emit::<()>("Some event", Ok(vec![0]))
        .unwrap()
        .0;
    assert!(calls.is_empty());
}

#[test]
fn unlimited_listener_answers_every_emit() {
    let mut em = AsyncEventEmitter::new();
    let id = em.on("tick");
    for _ in 0..10 {
        let calls = em.emit::<()>("tick", Ok(vec![]))
        .unwrap()
        .0;
        assert_eq!(ids(&calls), vec![id.clone()]);
    }
    assert_eq!(limits(&em, "tick"), vec![None]);
}

#[test]
fn listeners_of_one_event_do_not_affect_each_other() {
    let mut em = AsyncEventEmitter::new();
    em.add_listener("e", Some(1), "a".to_string());
    em.add_listener("e", None, "b".to_string());
    em.add_listener("e", Some(0), "c".to_string());
    em.add_listener("e", Some(2), "d".to_string());

    let (calls, removed) = em.emit::<()>("e", Ok(vec![7])).unwrap();
    assert_eq!(ids(&calls), vec!["a", "b", "d"]);
    assert_eq!(removed, vec!["a", "c"]);
    assert_eq!(listener_ids(&em, "e"), vec!["b", "d"]);
    assert_eq!(limits(&em, "e"), vec![None, Some(1)]);

    let (calls, removed) = em.emit::<()>("e", Ok(vec![7])).unwrap();
    assert_eq!(ids(&calls), vec!["b", "d"]);
    assert_eq!(removed, vec!["d"]);
    assert_eq!(listener_ids(&em, "e"), vec!["b"]);
    assert_eq!(limits(&em, "e"), vec![None]);

    let calls = em.emit::<()>("e", Ok(vec![7]))
        .unwrap()
        .0;
    assert_eq!(ids(&calls), vec!["b"]);
    assert_eq!(listener_ids(&em, "e"), vec!["b"]);
}

#[test]
fn emit_of_an_event_without_listeners_changes_nothing() {
    let mut em = AsyncEventEmitter::new();
    em.on("other");
    let calls = em.emit::<String>("nobody", Err("no bytes".to_string()))
        .unwrap()
        .0;
    assert!(calls.is_empty());
    assert_eq!(em.listeners.len(), 1);
    assert!(!em.listeners.contains_key("nobody"));
}

#[test]
fn failed_serialization_is_reported_and_changes_nothing() {
    let mut em = AsyncEventEmitter::new();
    em.add_listener("value", Some(2), "x".to_string());
    let res = em.emit::<String>("value", Err("cannot serialize".to_string()));
    assert_eq!(res, Err("cannot serialize".to_string()));
    assert_eq!(limits(&em, "value"), vec![Some(2)]);

    em.add_listener("empty", Some(0), "y".to_string());
    let res = em.emit::<String>("empty", Err("cannot serialize".to_string()));
    assert_eq!(res, Err("cannot serialize".to_string()));
    assert_eq!(listener_ids(&em, "empty"), vec!["y"]);

    let res = em.emit::<String>("empty", Ok(vec![1]));
    assert_eq!(res, Ok((vec![], vec!["y".to_string()])));
    assert!(listener_ids(&em, "empty").is_empty());
    let res = em.emit::<String>("empty", Err("cannot serialize".to_string()));
    assert_eq!(res, Ok((vec![], vec![])));
}

#[test]
fn new_ids_are_hyphenated_uuids() {
    let mut em = AsyncEventEmitter::new();
    let id = em.on("x");
    let other = em.on("x");
    assert_ne!(id, other);
    let chars: Vec<char> = id.chars().collect();
    assert_eq!(chars.len(), 36);
    for place in [8, 13, 18, 23] {
        assert_eq!(chars[place], '-');
    }
    assert_eq!(chars[14], '4');
    assert!(matches!(chars[19], '8' | '9' | 'a' | 'b'));
    for (place, c) in chars.iter().enumerate() {
        if ![8, 13, 18, 23].contains(&place) {
            assert!(c.is_ascii_digit() || ('a'..='f').contains(c));
        }
    }
    assert_eq!(listener_ids(&em, "x"), vec![id, other]);
}

#[test]
fn removing_a_listener_just_added_restores_the_event() {
    let mut em = AsyncEventEmitter::new();
    em.add_listener("e", None, "a".to_string());
    em.add_listener("e", Some(4), "b".to_string());
    let id = em.on_limited("e", Some(9));
    assert_eq!(listener_ids(&em, "e"), vec!["a".to_string(), "b".to_string(), id.clone()]);
    assert_eq!(em.remove_listener(&id), Some(id));
    assert_eq!(listener_ids(&em, "e"), vec!["a", "b"]);
    assert_eq!(limits(&em, "e"), vec![None, Some(4)]);
}

#[test]
fn remove_listener_takes_the_first_listener_with_the_id() {
    let mut em = AsyncEventEmitter::new();
    em.add_listener("e", None, "a".to_string());
    em.add_listener("e", Some(5), "dup".to_string());
    em.add_listener("e", Some(6), "dup".to_string());
    assert_eq!(em.remove_listener("dup"), Some("dup".to_string()));
    assert_eq!(listener_ids(&em, "e"), vec!["a", "dup"]);
    assert_eq!(limits(&em, "e"), vec![None, Some(6)]);
}

#[test]
fn clone_holds_the_same_listeners() {
    let mut em = AsyncEventEmitter::new();
    em.add_listener("e", Some(2), "a".to_string());
    let copy = em.clone();
    em.emit::<()>("e", Ok(vec![]))
        .unwrap()
        .0;
    assert_eq!(limits(&copy, "e"), vec![Some(2)]);
    assert_eq!(limits(&em, "e"), vec![Some(1)]);
    println!("{:?}", copy);
}

fn listener(id: &str, limit: Option<u64>) -> AsyncListener {
    AsyncListener {
        id: id.to_string(),
        limit,
    }
}

#[test]
fn plan_emit_splits_listeners_into_calls_kept_and_removed() {
    let listeners = vec![
        listener("a", Some(0)),
        listener("b", Some(3)),
        listener("c", None),
        listener("d", Some(0)),
        listener("e", Some(1)),
    ];
    let (fired, kept, removed) = plan_emit(&listeners);
    assert_eq!(fired, vec!["b", "c", "e"]);
    assert_eq!(removed, vec!["a", "d", "e"]);
    let kept: Vec<(String, Option<u64>)> = kept.into_iter().map(|l| (l.id, l.limit)).collect();
    assert_eq!(
        kept,
        vec![
            ("b".to_string(), Some(2)),
            ("c".to_string(), None),
        ]
    );

    let (fired, kept, removed) = plan_emit(&Vec::new());
    assert!(fired.is_empty() && kept.is_empty() && removed.is_empty());
}

#[test]
fn first_index_of_id_finds_the_first_match() {
    let listeners = vec![listener("a", None), listener("b", None), listener("b", Some(1))];
    assert_eq!(first_index_of_id(&listeners, &"b".to_string()), Some(1));
    assert_eq!(first_index_of_id(&listeners, &"a".to_string()), Some(0));
    assert_eq!(first_index_of_id(&listeners, &"z".to_string()), None);
}

#[test]
fn listener_clone_keeps_the_fields() {
    let l = listener("x", Some(4));
    let c = l.clone();
    assert_eq!(c.id, "x");
    assert_eq!(c.limit, Some(4));
}

#[test]
fn has_listeners_says_whether_an_emit_needs_the_value() {
    let mut em = AsyncEventEmitter::new();
    assert!(!em.has_listeners("e"));
    let id = em.once("e");
    assert!(em.has_listeners("e"));
    assert!(!em.has_listeners("other"));
    em.emit::<()>("e", Ok(vec![])).unwrap();
    assert!(!em.has_listeners("e"));
    assert!(em.remove_listener(&id).is_none());
}
