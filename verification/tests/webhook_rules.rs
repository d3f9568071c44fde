use lsd::app::webhooks::{
    charge_refunded_action, checkout_action, checkout_paid, event_kind, parse_signature_header, refund_failed_alert,
    verify_signature, CheckoutAction, RefundAction, SignatureError, StripeEvent,
};

const KEY: &str = "whsec_test";
const BODY: &str = "{\"id\":\"evt_1\"}";
// HMAC-SHA256 of "1700000000.{\"id\":\"evt_1\"}" under "whsec_test", in hex.
const SIG: &str = "c89214b5b5da833daed6f0b8c5bb6bd58cea9022bd80ccc78230f3942d632925";

#[test]
fn signature_header_fields() {
    let (t, sigs) = parse_signature_header("t=123,v1=abc,v0=zzz,v1=def");
    assert_eq!(t.as_deref(), Some("123"));
    assert_eq!(sigs, vec!["abc", "def"]);
    let (t, sigs) = parse_signature_header("t=1,t=2");
    assert_eq!(t.as_deref(), Some("2"));
    assert!(sigs.is_empty());
    let (t, sigs) = parse_signature_header("garbage");
    assert_eq!(t, None);
    assert!(sigs.is_empty());
}

#[test]
fn signed_delivery_is_accepted() {
    let header = format!("t=1700000000,v1={SIG}");
    assert_eq!(verify_signature(&header, BODY, KEY), Ok(()));
    let header = format!("t=1700000000,v1=deadbeef,v1={SIG}");
    assert_eq!(verify_signature(&header, BODY, KEY), Ok(()));
}

#[test]
fn wrong_signature_is_unauthorized() {
    let header = format!("t=1700000000,v1={SIG}");
    assert_eq!(verify_signature(&header, "{\"id\":\"evt_2\"}", KEY), Err(SignatureError::Unauthorized));
    assert_eq!(verify_signature(&header, BODY, "whsec_other"), Err(SignatureError::Unauthorized));
    assert_eq!(verify_signature(&format!("t=1700000001,v1={SIG}"), BODY, KEY), Err(SignatureError::Unauthorized));
    // The signed payload itself, handed back unhashed, is no signature.
    let payload = format!("1700000000.{BODY}");
    assert_eq!(verify_signature(&format!("t=1700000000,v1={payload}"), BODY, KEY), Err(SignatureError::Unauthorized));
}

#[test]
fn header_without_fields_is_invalid() {
    assert_eq!(verify_signature(&format!("v1={SIG}"), BODY, KEY), Err(SignatureError::Invalid));
    assert_eq!(verify_signature("t=1700000000", BODY, KEY), Err(SignatureError::Invalid));
    assert_eq!(verify_signature("", BODY, KEY), Err(SignatureError::Invalid));
}

#[test]
fn event_kinds() {
    assert_eq!(event_kind("checkout.session.completed"), StripeEvent::CheckoutSessionCompleted);
    assert_eq!(event_kind("charge.refunded"), StripeEvent::ChargeRefunded);
    assert_eq!(event_kind("refund.failed"), StripeEvent::RefundFailed);
    assert_eq!(event_kind("invoice.paid"), StripeEvent::Unhandled);
}

#[test]
fn refund_actions() {
    assert_eq!(charge_refunded_action(false, Some("refund_pending")), RefundAction::NotRefunded);
    assert_eq!(charge_refunded_action(true, None), RefundAction::NoSession);
    assert_eq!(charge_refunded_action(true, Some("refund_pending")), RefundAction::ConfirmRefund);
    assert_eq!(charge_refunded_action(true, Some("payment_confirmed")), RefundAction::UnexpectedStatus);
}

#[test]
fn checkout_decisions() {
    assert!(checkout_paid("paid"));
    assert!(!checkout_paid("unpaid"));
    assert_eq!(checkout_action("payment_confirmed"), CheckoutAction::SendConfirmations);
    assert_eq!(checkout_action("refund_pending"), CheckoutAction::AlertRefunded);
    assert_eq!(checkout_action("refund_confirmed"), CheckoutAction::AlertRefunded);
    assert_eq!(checkout_action("contribution"), CheckoutAction::Nothing);
}

#[test]
fn refund_failed_alert_text() {
    assert_eq!(
        refund_failed_alert(Some("pi_1"), Some("expired_or_canceled_card")),
        "Stripe[refund.failed]: payment_intent=pi_1 failure_reason=expired_or_canceled_card"
    );
    assert_eq!(refund_failed_alert(None, None), "Stripe[refund.failed]: payment_intent=unknown failure_reason=unknown");
}
