use utils::email::{
    after_attempt, build_mail, mail_parts, MailError, MailRequest, MailStep, MAX_RETRY, RETRY_TICK,
};
use utils::extension::Cache;
use utils::global::Global;
use utils::jwt::Token;
use utils::rc::CancerCell;
use utils::tracing::TraceInit;

#[test]
fn global_remembers_previous_value() {
    let mut g = Global::new(1u32);
    assert_eq!(*g.get_value(), 1);
    g.change(2);
    assert_eq!(g.changed_values(), (&1, &2));
    *g.get_value_mut() = 5;
    assert_eq!(g.changed_values(), (&1, &5));
}

#[test]
fn cell_holds_its_value() {
    let c = CancerCell::new(String::from("v"));
    assert_eq!(c.get(), "v");
}

#[test]
fn trace_init_runs_its_step() {
    let ran = std::cell::Cell::new(0);
    let t = TraceInit::new(|| ran.set(ran.get() + 1));
    t.init();
    t.init();
    assert_eq!(ran.get(), 2);
}

#[test]
fn mail_request_holds_its_parts() {
    let m = MailRequest::new(vec!["a@b.c".to_string()], "<p>x</p>".to_string(), "s".to_string());
    assert_eq!(m.to, vec!["a@b.c".to_string()]);
    assert_eq!(m.content, "<p>x</p>");
    assert_eq!(m.subject, "s");
}

#[test]
fn mail_is_tried_at_most_five_times() {
    assert_eq!(MAX_RETRY, 5);
    assert_eq!(after_attempt(1, true), MailStep::Sent);
    assert_eq!(after_attempt(1, false), MailStep::RetryAfter(RETRY_TICK));
    assert_eq!(after_attempt(4, false), MailStep::RetryAfter(60));
    assert_eq!(after_attempt(5, false), MailStep::GiveUpAfter(60));
    assert_eq!(after_attempt(5, true), MailStep::Sent);
}

#[test]
fn cache_insert_get_remove() {
    let mut c: Cache<u8> = Cache::new();
    c.insert("a".to_string(), 1);
    c.insert("b".to_string(), 2);
    c.insert("a".to_string(), 3);
    assert_eq!(c.get("a"), Some(&3));
    assert_eq!(c.get("b"), Some(&2));
    assert_eq!(c.remove("a"), Some(3));
    assert_eq!(c.remove("a"), None);
    assert!(!c.contains_key("a"));
    assert!(c.contains_key("b"));
}

#[test]
fn sweep_keeps_the_entries_that_report_expired() {
    let mut c: Cache<Token<u8>> = Cache::new();
    let mut old = Token::new(1u8);
    old.exp = 0;
    let mut fresh = Token::new(2u8);
    fresh.exp = u64::MAX;
    c.insert("old".to_string(), old);
    c.insert("fresh".to_string(), fresh);
    c.clean_expired_value();
    assert!(c.contains_key("old"));
    assert!(!c.contains_key("fresh"));
}

#[test]
fn sweep_at_a_given_time_keeps_what_has_expired_by_then() {
    let mut c: Cache<Token<u8>> = Cache::new();
    let mut a = Token::new(1u8);
    a.exp = 10;
    let mut b = Token::new(2u8);
    b.exp = 20;
    let mut d = Token::new(3u8);
    d.exp = 30;
    c.insert("a".to_string(), a);
    c.insert("b".to_string(), b);
    c.insert("d".to_string(), d);
    c.clean_expired_at(20);
    assert!(c.contains_key("a"));
    assert!(!c.contains_key("b"));
    assert!(!c.contains_key("d"));
    assert_eq!(c.get("a").map(|t| t.info), Some(1));
    c.clean_expired_at(5);
    assert!(!c.contains_key("a"));
}

#[test]
fn mail_is_built_from_mailboxes() {
    let ok = MailRequest::new(vec!["x@y.org".to_string(), "Bob <b@y.org>".to_string()], "<p>hi</p>".to_string(), "s".to_string());
    assert!(build_mail("me@example.com", &ok).is_ok());
    assert_eq!(build_mail("not a mailbox", &ok).err(), Some(MailError::InvalidFrom));
    let bad_to = MailRequest::new(vec!["x@y.org".to_string(), "nope".to_string()], "c".to_string(), "s".to_string());
    assert_eq!(build_mail("me@example.com", &bad_to).err(), Some(MailError::InvalidTo));
    let nobody = MailRequest::new(vec![], "c".to_string(), "s".to_string());
    assert_eq!(build_mail("me@example.com", &nobody).err(), Some(MailError::Build));
}

#[test]
fn mail_parts_keep_the_request() {
    let req = MailRequest::new(
        vec!["x@y.org".to_string(), "Bob <b@y.org>".to_string()],
        "<p>hi</p>".to_string(),
        "greeting".to_string(),
    );
    let parts = mail_parts("me@example.com", &req).ok().unwrap();
    assert_eq!(parts.from.to_string(), "me@example.com");
    assert_eq!(parts.to.len(), 2);
    assert_eq!(parts.to[0].to_string(), "x@y.org");
    assert_eq!(parts.to[1].email.to_string(), "b@y.org");
    assert_eq!(parts.subject, "greeting");
    assert_eq!(parts.content, "<p>hi</p>");
    assert_eq!(mail_parts("bad", &req).err(), Some(MailError::InvalidFrom));
}

#[test]
fn built_mail_carries_the_request() {
    let req = MailRequest::new(vec!["x@y.org".to_string()], "<p>hi</p>".to_string(), "greeting".to_string());
    let message = build_mail("me@example.com", &req).ok().unwrap();
    let text = String::from_utf8(message.formatted()).unwrap();
    assert!(text.contains("From: me@example.com"));
    assert!(text.contains("To: x@y.org"));
    assert!(text.contains("Subject: greeting"));
    assert!(text.contains("text/html"));
    assert!(text.contains("<p>hi</p>"));
}

#[test]
fn built_mail_lists_recipients_in_order_with_crlf_body() {
    let req = MailRequest::new(
        vec!["x@y.org".to_string(), "Bob <b@y.org>".to_string(), "z@y.org".to_string()],
        "line one\nline two".to_string(),
        "greeting".to_string(),
    );
    let message = build_mail("Me <me@example.com>", &req).ok().unwrap();
    let text = String::from_utf8(message.formatted()).unwrap();
    assert!(text.contains("From: Me <me@example.com>"));
    assert!(text.contains("To: x@y.org, Bob <b@y.org>, z@y.org"));
    assert!(text.contains("line one\r\nline two"));
    assert!(!text.contains("line two\r\nline one"));
}
