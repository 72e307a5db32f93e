//! Routing is the part that goes wrong quietly: a reply sent to the wrong place, or to nowhere,
//! looks identical to a reply that was never written. So most of this is about delivery.
use crew_app::channel::{split_address, Inbound, Loopback, Router};

fn router_with(kinds: &[&str]) -> Router<Loopback> {
    let mut r = Router::new();
    for k in kinds {
        let c = Loopback::pair(k);
        r.add(c).expect("register");
    }
    r
}

#[test]
fn an_address_splits_into_a_kind_and_a_rest() {
    assert_eq!(split_address("telegram:12345"), Some(("telegram", "12345")));
    // The rest may itself contain colons — a channel's addressing is its own business.
    assert_eq!(
        split_address("voice:mic:default"),
        Some(("voice", "mic:default"))
    );
}

#[test]
fn an_address_without_a_kind_is_not_routable() {
    assert_eq!(split_address("12345"), None);
    assert_eq!(split_address(""), None);
    assert_eq!(split_address(":12345"), None, "an empty kind names nothing");
    assert_eq!(
        split_address("telegram:"),
        None,
        "an empty rest names nobody"
    );
}

#[test]
fn a_reply_reaches_the_channel_its_address_names_and_no_other() {
    let mut r = router_with(&["telegram", "voice"]);
    r.send("telegram:me", "hello").expect("routed");
    assert_eq!(
        r.channel_mut(0).wire.outbox,
        vec![("telegram:me".to_string(), "hello".to_string())]
    );
    assert!(
        r.channel_mut(1).wire.outbox.is_empty(),
        "the other channel heard nothing"
    );
}

#[test]
fn an_unroutable_address_is_an_error_not_a_silent_drop() {
    let mut r = router_with(&["telegram"]);
    let err = r.send("sms:12345", "hello").unwrap_err();
    assert!(
        err.contains("sms"),
        "the error names the missing channel: {err}"
    );
    let err = r.send("nonsense", "hello").unwrap_err();
    assert!(
        err.contains("kind:rest"),
        "the error explains the shape: {err}"
    );
}

#[test]
fn two_channels_cannot_own_the_same_address_kind() {
    let mut r = Router::new();
    let a = Loopback::pair("telegram");
    let b = Loopback::pair("telegram");
    r.add(a).expect("the first one registers");
    let err = r.add(b).unwrap_err();
    assert!(err.contains("telegram"), "{err}");
    assert_eq!(r.kinds(), vec!["telegram"], "only one owner survives");
}

#[test]
fn a_channel_kind_cannot_contain_a_colon() {
    let mut r = Router::new();
    let bad = Loopback::pair("tele:gram");
    assert!(r.add(bad).is_err());
}

#[test]
fn polled_messages_keep_the_address_to_answer() {
    let mut r = router_with(&["telegram", "voice"]);
    r.channel_mut(0).wire.inbox.push(Inbound {
        from: "telegram:me".into(),
        text: "what is on my calendar".into(),
    });
    r.channel_mut(1).wire.inbox.push(Inbound {
        from: "voice:kitchen".into(),
        text: "set a timer".into(),
    });
    let got = r.poll();
    assert_eq!(got.len(), 2);
    let addrs: Vec<&str> = got.iter().map(|i| i.from.as_str()).collect();
    assert!(addrs.contains(&"telegram:me") && addrs.contains(&"voice:kitchen"));
    // And the round trip: every polled message can be answered where it came from.
    for i in &got {
        r.send(&i.from, "ok").expect("every origin is routable");
    }
    assert_eq!(r.channel_mut(0).wire.outbox.len(), 1);
    assert_eq!(r.channel_mut(1).wire.outbox.len(), 1);
}

#[test]
fn polling_drains_so_a_message_is_delivered_once() {
    let mut r = router_with(&["telegram"]);
    r.channel_mut(0).wire.inbox.push(Inbound {
        from: "telegram:me".into(),
        text: "once".into(),
    });
    assert_eq!(r.poll().len(), 1);
    assert!(
        r.poll().is_empty(),
        "a message is not replayed on the next poll"
    );
}

#[test]
fn an_unconfigured_channel_is_listed_but_refuses_to_send() {
    let mut r = router_with(&["telegram"]);
    r.channel_mut(0).wire.ready = false;
    assert_eq!(r.kinds(), vec!["telegram"], "still registered");
    assert!(r.ready_kinds().is_empty(), "but not usable");
    let err = r.send("telegram:me", "hello").unwrap_err();
    assert!(err.contains("not configured"), "{err}");
    assert!(
        r.channel_mut(0).wire.outbox.is_empty(),
        "nothing was handed to an unusable transport"
    );
}

#[test]
fn kinds_are_listed_in_order_whatever_order_they_were_added() {
    let r = router_with(&["voice", "telegram", "sms"]);
    assert_eq!(r.kinds(), vec!["sms", "telegram", "voice"]);
}

#[test]
fn an_address_round_trips_through_its_kind_and_rest() {
    for a in ["telegram:42", "voice:mic:default", "x:y"] {
        let (k, rest) = split_address(a).unwrap();
        assert_eq!(format!("{k}:{rest}"), a);
        assert!(!k.contains(':'));
    }
}

#[test]
fn errors_quote_what_they_name() {
    let mut r = router_with(&["telegram"]);
    assert_eq!(
        r.send("sms:12345", "hello").unwrap_err(),
        "no channel is registered for \"sms\""
    );
    let dup = Loopback::pair("telegram");
    assert_eq!(
        r.add(dup).unwrap_err(),
        "a channel already owns the address kind \"telegram\""
    );
    r.channel_mut(0).wire.ready = false;
    assert_eq!(
        r.send("telegram:me", "x").unwrap_err(),
        "the \"telegram\" channel is not configured"
    );
}
