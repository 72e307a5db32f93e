//! The pump's invariants, the allowlist, and the states a channel with no token must be in.
use crew_app::channel::{Channel, Inbound, Loopback, Router};
use crew_app::telegram::{chat_id_of, pump, pump_checked, pump_updates, Allowlist, AnyChannel, Pumped, Shared, Telegram, TelegramApi, Update, BACKOFF_SECS};
use std::sync::Mutex;

/// Canned updates, recorded sends.
struct FakeApi {
    updates: Mutex<Vec<Vec<Update>>>,
    sent: Mutex<Vec<(i64, String)>>,
    fail: bool,
}

impl FakeApi {
    fn with(rounds: Vec<Vec<Update>>) -> Self {
        Self {
            updates: Mutex::new(rounds),
            sent: Mutex::new(Vec::new()),
            fail: false,
        }
    }
    fn broken() -> Self {
        Self {
            updates: Mutex::new(Vec::new()),
            sent: Mutex::new(Vec::new()),
            fail: true,
        }
    }
}

impl TelegramApi for FakeApi {
    fn get_updates(&self, _offset: i64) -> Result<Vec<Update>, String> {
        if self.fail {
            return Err("network is down".into());
        }
        let mut q = self.updates.lock().unwrap();
        if q.is_empty() {
            Ok(Vec::new())
        } else {
            Ok(q.remove(0))
        }
    }
    fn send_message(&self, chat_id: i64, text: &str) -> Result<(), String> {
        if self.fail {
            return Err("network is down".into());
        }
        self.sent.lock().unwrap().push((chat_id, text.to_string()));
        Ok(())
    }
}

fn upd(id: i64, chat: i64, text: &str) -> Update {
    Update {
        update_id: id,
        chat_id: chat,
        text: text.into(),
    }
}

fn allow(ids: &[i64]) -> Allowlist {
    Allowlist::parse(&ids.iter().map(i64::to_string).collect::<Vec<_>>().join(","))
}

#[test]
fn an_allowed_message_becomes_an_addressed_inbound() {
    let api = FakeApi::with(vec![vec![upd(5, 42, "what is on my calendar")]]);
    let p = pump(&api, 0, &allow(&[42])).unwrap();
    assert_eq!(p.inbound.len(), 1);
    assert_eq!(
        p.inbound[0].from, "telegram:42",
        "the reply address is the chat"
    );
    assert_eq!(p.inbound[0].text, "what is on my calendar");
}

#[test]
fn the_offset_advances_past_everything_seen() {
    let api = FakeApi::with(vec![vec![upd(7, 42, "a"), upd(9, 42, "b")]]);
    let p = pump(&api, 0, &allow(&[42])).unwrap();
    assert_eq!(p.offset, 10, "one past the highest update id");
}

#[test]
fn a_refused_message_still_advances_the_offset() {
    let api = FakeApi::with(vec![vec![upd(3, 999, "hello from a stranger")]]);
    let p = pump(&api, 0, &allow(&[42])).unwrap();
    assert!(p.inbound.is_empty(), "the stranger is not acted on");
    assert_eq!(p.offset, 4, "but crew does not read it again forever");
    assert_eq!(p.refused, vec![999], "and the owner is told who knocked");
}

#[test]
fn an_empty_allowlist_accepts_nobody_rather_than_everybody() {
    let api = FakeApi::with(vec![vec![upd(1, 42, "hi"), upd(2, 7, "hi")]]);
    let p = pump(&api, 0, &Allowlist::default()).unwrap();
    assert!(
        p.inbound.is_empty(),
        "an unconfigured bot must not take orders from the internet"
    );
    assert_eq!(p.refused.len(), 2);
}

#[test]
fn the_allowlist_parses_commas_and_spaces_and_ignores_junk() {
    let a = Allowlist::parse(" 42, 7 ,, nonsense 13 ");
    assert!(a.allows(42) && a.allows(7) && a.allows(13));
    assert!(!a.allows(1));
    assert!(Allowlist::parse("").is_empty());
}

#[test]
fn an_empty_message_is_not_an_inbound() {
    let api = FakeApi::with(vec![vec![upd(1, 42, "   ")]]);
    let p = pump(&api, 0, &allow(&[42])).unwrap();
    assert!(p.inbound.is_empty());
    assert_eq!(p.offset, 2, "still consumed");
}

#[test]
fn a_transport_failure_is_reported_not_swallowed() {
    let api = FakeApi::broken();
    assert!(pump(&api, 0, &allow(&[42])).is_err());
    let mut t = Telegram::with_api(FakeApi::broken(), allow(&[42]));
    assert!(t.tick().is_err());
}

#[test]
fn an_address_round_trips_through_the_chat_id() {
    assert_eq!(chat_id_of("telegram:4242"), Some(4242));
    assert_eq!(
        chat_id_of("telegram:-100123"),
        Some(-100123),
        "groups are negative"
    );
    assert_eq!(chat_id_of("voice:4242"), None, "another channel's address");
    assert_eq!(chat_id_of("telegram:not-a-number"), None);
}

/// Records what was sent, so a test can prove the message reached the right chat.
struct Probe(std::sync::Arc<Mutex<Vec<(i64, String)>>>);
impl TelegramApi for Probe {
    fn get_updates(&self, _o: i64) -> Result<Vec<Update>, String> {
        Ok(Vec::new())
    }
    fn send_message(&self, chat_id: i64, text: &str) -> Result<(), String> {
        self.0.lock().unwrap().push((chat_id, text.to_string()));
        Ok(())
    }
}

#[test]
fn sending_reaches_the_chat_the_address_names() {
    let log = std::sync::Arc::new(Mutex::new(Vec::new()));
    let mut t = Telegram::with_api(Probe(log.clone()), allow(&[42]));
    t.send("telegram:42", "on it").unwrap();
    assert_eq!(log.lock().unwrap().as_slice(), &[(42, "on it".to_string())]);
}

#[test]
fn crew_will_not_message_a_chat_outside_the_allowlist() {
    let mut t = Telegram::with_api(FakeApi::with(vec![]), allow(&[42]));
    let err = t.send("telegram:999", "hello").unwrap_err();
    assert!(err.contains("999"), "{err}");
}

#[test]
fn a_token_without_an_allowlist_is_not_ready() {
    let t = Telegram::with_api(FakeApi::with(vec![]), Allowlist::default());
    assert!(!t.ready());
    let t = Telegram::with_api(FakeApi::with(vec![]), allow(&[42]));
    assert!(t.ready());
}

#[test]
fn without_an_api_the_channel_is_inert() {
    let mut t: Telegram<FakeApi> = Telegram::from_parts(None, allow(&[42]));
    assert!(!t.ready(), "not ready without a token");
    assert!(t.tick().is_ok(), "ticking is a no-op, not an error");
    assert!(t.poll().is_empty());
    let err = t.send("telegram:42", "hello").unwrap_err();
    assert!(
        err.contains("CREW_TELEGRAM_TOKEN"),
        "the error says what is missing: {err}"
    );
}

#[test]
fn a_tick_queues_what_the_next_poll_hands_out_and_moves_the_offset() {
    let api = FakeApi::with(vec![vec![upd(4, 42, "one"), upd(6, 7, "two")]]);
    let mut t = Telegram::with_api(api, allow(&[42]));
    t.tick().unwrap();
    assert_eq!(t.shared.offset, 7);
    let got = t.poll();
    assert_eq!(got.len(), 1);
    assert_eq!(got[0].from, "telegram:42");
    assert!(t.poll().is_empty(), "delivered once");
    let notes = t.notices();
    assert_eq!(notes.len(), 1, "the refused chat is reported once: {notes:?}");
    assert!(notes[0].contains('7'));
}

#[test]
fn an_update_id_with_no_successor_is_an_error_not_an_overflow() {
    let api = FakeApi::with(vec![vec![upd(i64::MAX, 42, "edge")]]);
    assert!(pump(&api, 0, &allow(&[42])).is_err());
    let err = pump_checked(&vec![upd(1, 42, "a"), upd(i64::MAX, 7, "b")], 0, &allow(&[42])).unwrap_err();
    assert_eq!(err, "telegram: an update id has no successor");
    let ok = pump_checked(&vec![upd(i64::MAX - 1, 42, "a")], 0, &allow(&[42])).unwrap();
    assert_eq!(ok.offset, i64::MAX);
}

#[test]
fn pumping_a_canned_round_keeps_order_and_trims_nothing_but_blank_text() {
    let us = vec![upd(1, 42, "first"), upd(2, 9, "x"), upd(3, 42, "  second ")];
    let p = pump_updates(&us, 0, &allow(&[42]));
    let texts: Vec<&str> = p.inbound.iter().map(|i| i.text.as_str()).collect();
    assert_eq!(texts, ["first", "  second "]);
    assert_eq!(p.offset, 4);
    assert_eq!(p.refused, vec![9]);
}

#[test]
fn a_sole_chat_is_the_default_address() {
    let t = Telegram::with_api(FakeApi::with(vec![]), allow(&[42]));
    assert_eq!(t.default_address(), Some("telegram:42".to_string()));
    let t = Telegram::with_api(FakeApi::with(vec![]), allow(&[42, 7]));
    assert_eq!(t.default_address(), None);
}

#[test]
fn a_loopback_and_telegram_share_one_router() {
    let log = std::sync::Arc::new(Mutex::new(Vec::new()));
    let mut r: Router<AnyChannel<Probe>> = Router::new();
    r.add(AnyChannel::Telegram(Telegram::with_api(Probe(log.clone()), allow(&[42])))).unwrap();
    r.add(AnyChannel::Loopback(Loopback::pair("voice"))).unwrap();
    r.send("telegram:42", "on it").unwrap();
    r.send("voice:kitchen", "timer set").unwrap();
    assert_eq!(log.lock().unwrap().as_slice(), &[(42, "on it".to_string())]);
    match r.channel_mut(1) {
        AnyChannel::Loopback(l) => assert_eq!(l.wire.outbox, vec![("voice:kitchen".to_string(), "timer set".to_string())]),
        _ => panic!("kinds are kept in order"),
    }
}

#[test]
fn a_failed_tick_reports_the_api_error_itself() {
    let mut t = Telegram::with_api(FakeApi::broken(), allow(&[42]));
    assert_eq!(t.tick(), Err("network is down".to_string()));
    assert_eq!(t.shared.offset, 0);
}

#[test]
fn a_poll_loop_backs_off_after_a_failure_and_hands_its_haul_over() {
    let mut polled = Shared::default();
    assert_eq!(polled.absorb(Err("down".into())), BACKOFF_SECS);
    let p = Pumped {
        inbound: vec![Inbound { from: "telegram:42".into(), text: "hi".into() }],
        offset: 8,
        refused: vec![7],
    };
    assert_eq!(polled.absorb(Ok(p)), 0);
    assert!(polled.error.is_none(), "a success clears the error");
    let mut mine = Shared::default();
    mine.error = Some("older".into());
    mine.deliver(&mut polled);
    assert_eq!(mine.offset, 8);
    assert_eq!(mine.inbox.len(), 1);
    assert_eq!(mine.refused, vec![7]);
    assert_eq!(mine.error.as_deref(), Some("older"), "no new error, the old one stays");
    assert!(polled.inbox.is_empty() && polled.refused.is_empty() && polled.error.is_none());
    assert_eq!(polled.offset, 8);
}
