//! Stripe webhooks: checking the signature of a delivery and deciding what each event asks for.
use hmac::{Hmac, Mac};
use sha2::Sha256;
use vstd::prelude::*;

use crate::db::rsvp_session::RsvpSession;
use crate::text::{lemma_split_join, lemma_split_without_sep, split_char, split_seq, str_eq, strings_seq};

verus! {

/// The HMAC-SHA256 tag of `msg` (as UTF-8 bytes) under `key` (as UTF-8 bytes).
pub uninterp spec fn hmac_sha256_of(key: Seq<char>, msg: Seq<char>) -> Seq<u8>;

/// Computes HMAC-SHA256 with the `hmac` and `sha2` crates: `Hmac::<Sha256>::new_from_slice`
/// (which accepts a key of any length), `update`, `finalize`. The tag is named
/// `hmac_sha256_of`; SHA-256 tags are 32 bytes long.
#[verifier::external_body]
fn hmac_sha256(key: &str, msg: &str) -> (tag: Vec<u8>)
    ensures
        tag@ == hmac_sha256_of(key@, msg@),
        tag@.len() == 32,
{
    let mut mac = Hmac::<Sha256>::new_from_slice(key.as_bytes()).unwrap();
    mac.update(msg.as_bytes());
    mac.finalize().into_bytes().to_vec()
}

/// The lowercase hex digit of `n` (below 16).
pub open spec fn hex_digit(n: int) -> char {
    if n < 10 { (48 + n) as char } else { (87 + n) as char }
}

/// `bytes` in lowercase hex, two digits per byte.
pub open spec fn hex_of(bytes: Seq<u8>) -> Seq<char>
    decreases bytes.len(),
{
    if bytes.len() == 0 {
        Seq::empty()
    } else {
        hex_of(bytes.drop_last()) + seq![hex_digit(bytes.last() as int / 16), hex_digit(bytes.last() as int % 16)]
    }
}

/// Calls `hex::encode`, which encodes data as a hex string using lowercase characters.
#[verifier::external_body]
fn hex_encode(bytes: &[u8]) -> (s: String)
    ensures
        s@ == hex_of(bytes@),
{
    hex::encode(bytes)
}

/// The `t` and `v1` fields of a `stripe-signature` header: the last timestamp, and every signature in order.
pub open spec fn signature_fields(parts: Seq<Seq<char>>) -> (Option<Seq<char>>, Seq<Seq<char>>)
    decreases parts.len(),
{
    if parts.len() == 0 {
        (None, Seq::empty())
    } else {
        let (t, sigs) = signature_fields(parts.drop_last());
        let kv = split_seq(parts.last(), '=');
        if kv.len() >= 2 && kv[0] == "t"@ {
            (Some(kv[1]), sigs)
        } else if kv.len() >= 2 && kv[0] == "v1"@ {
            (t, sigs.push(kv[1]))
        } else {
            (t, sigs)
        }
    }
}

/// Reads the `t=...` timestamp and the `v1=...` signatures of a `stripe-signature` header:
/// comma-separated `key=value` parts, where the value ends at the next `=`.
pub fn parse_signature_header(header: &str) -> (r: (Option<String>, Vec<String>))
    ensures
        (match r.0 {
            Some(t) => Some(t@),
            None => None::<Seq<char>>,
        }, strings_seq(r.1@)) == signature_fields(split_seq(header@, ',')),
{
    let parts = split_char(header, ',');
    let ghost ps = split_seq(header@, ',');
    let mut timestamp: Option<String> = None;
    let mut signatures: Vec<String> = Vec::new();
    let mut i: usize = 0;
    while i < parts.len()
        invariant
            i <= parts@.len(),
            strings_seq(parts@) == ps,
            (match timestamp {
                Some(t) => Some(t@),
                None => None::<Seq<char>>,
            }, strings_seq(signatures@)) == signature_fields(ps.take(i as int)),
        decreases parts@.len() - i,
    {
        proof {
            assert(ps.take(i + 1).drop_last() =~= ps.take(i as int));
            assert(ps.take(i + 1).last() == parts@[i as int]@);
        }
        let kv = split_char(parts[i].as_str(), '=');
        if kv.len() >= 2 {
            if str_eq(kv[0].as_str(), "t") {
                timestamp = Some(kv[1].clone());
            } else if str_eq(kv[0].as_str(), "v1") {
                let ghost old = signatures@;
                signatures.push(kv[1].clone());
                proof {
                    assert(strings_seq(signatures@) =~= strings_seq(old).push(kv@[1]@));
                }
            }
        }
        i = i + 1;
    }
    proof {
        assert(ps.take(i as int) =~= ps);
    }
    (timestamp, signatures)
}

/// Why a webhook delivery was refused.
#[derive(Clone, Copy, Debug, PartialEq, Eq)]
pub enum SignatureError {
    /// The header has no timestamp, or no signature.
    Invalid,
    /// No signature matches the expected one.
    Unauthorized,
}

/// The signature Stripe sends for `body` at timestamp `t`: the hex HMAC-SHA256 of
/// `"{t}.{body}"` under the webhook key.
pub open spec fn expected_signature(key: Seq<char>, t: Seq<char>, body: Seq<char>) -> Seq<char> {
    hex_of(hmac_sha256_of(key, t + "."@ + body))
}

/// The result of checking a delivery with this header and body.
pub open spec fn signature_outcome(header: Seq<char>, body: Seq<char>, key: Seq<char>) -> Result<(), SignatureError> {
    let (t, sigs) = signature_fields(split_seq(header, ','));
    match t {
        None => Err(SignatureError::Invalid),
        Some(t) => if sigs.len() == 0 {
            Err(SignatureError::Invalid)
        } else if sigs.contains(expected_signature(key, t, body)) {
            Ok(())
        } else {
            Err(SignatureError::Unauthorized)
        },
    }
}

proof fn lemma_hex_chars(bytes: Seq<u8>)
    ensures
        forall|i: int| 0 <= i < hex_of(bytes).len() ==> {
            let c = #[trigger] hex_of(bytes)[i];
            ('0' <= c <= '9') || ('a' <= c <= 'f')
        },
    decreases bytes.len(),
{
    if bytes.len() > 0 {
        lemma_hex_chars(bytes.drop_last());
        let prev = hex_of(bytes.drop_last());
        let hi = bytes.last() as int / 16;
        let lo = bytes.last() as int % 16;
        assert(0 <= hi < 16 && 0 <= lo < 16);
        assert forall|i: int| 0 <= i < hex_of(bytes).len() implies {
            let c = #[trigger] hex_of(bytes)[i];
            ('0' <= c <= '9') || ('a' <= c <= 'f')
        } by {
            if i < prev.len() {
                assert(hex_of(bytes)[i] == prev[i]);
            }
        }
    }
}

/// A delivery signed the way Stripe signs it is accepted: the header `t={t},v1={sig}`,
/// where `sig` is the hex HMAC-SHA256 of `"{t}.{body}"` under the key, passes the check
/// for that body and key (for a timestamp holding neither `,` nor `=`).
pub proof fn lemma_signed_delivery_accepted(t: Seq<char>, body: Seq<char>, key: Seq<char>)
    requires
        !t.contains(','),
        !t.contains('='),
    ensures
        signature_outcome("t="@ + t + ",v1="@ + expected_signature(key, t, body), body, key) == Ok::<
            (),
            SignatureError,
        >(()),
{
    reveal_strlit("t=");
    reveal_strlit(",v1=");
    reveal_strlit("t");
    reveal_strlit("v1");
    let sig = expected_signature(key, t, body);
    lemma_hex_chars(hmac_sha256_of(key, t + "."@ + body));
    assert(!sig.contains(',') && !sig.contains('=')) by {
        if sig.contains(',') || sig.contains('=') {
            let k = choose|k: int| 0 <= k < sig.len() && (sig[k] == ',' || sig[k] == '=');
            assert(sig[k] == hex_of(hmac_sha256_of(key, t + "."@ + body))[k]);
        }
    }
    let first = "t"@ + seq!['='] + t;
    let second = "v1"@ + seq!['='] + sig;
    let header = "t="@ + t + ",v1="@ + sig;
    assert("t="@ =~= "t"@ + seq!['=']);
    assert(",v1="@ =~= seq![','] + "v1"@ + seq!['=']);
    assert(header =~= first + seq![','] + second);
    assert(!first.contains(',')) by {
        if first.contains(',') {
            let k = choose|k: int| 0 <= k < first.len() && first[k] == ',';
            if k >= 2 {
                assert(t[k - 2] == ',');
            }
        }
    }
    assert(!second.contains(',')) by {
        if second.contains(',') {
            let k = choose|k: int| 0 <= k < second.len() && second[k] == ',';
            if k >= 3 {
                assert(sig[k - 3] == ',');
            }
        }
    }
    lemma_split_join(first, second, ',');
    lemma_split_without_sep(first, ',');
    lemma_split_without_sep(second, ',');
    let parts = split_seq(header, ',');
    assert(parts =~= seq![first, second]);
    lemma_split_join("t"@, t, '=');
    lemma_split_join("v1"@, sig, '=');
    assert(!"t"@.contains('=')) by {
        assert("t"@[0] == 't');
    }
    assert(!"v1"@.contains('=')) by {
        assert("v1"@[0] == 'v' && "v1"@[1] == '1');
    }
    lemma_split_without_sep("t"@, '=');
    lemma_split_without_sep("v1"@, '=');
    lemma_split_without_sep(t, '=');
    lemma_split_without_sep(sig, '=');
    assert(split_seq(first, '=') =~= seq!["t"@, t]);
    assert(split_seq(second, '=') =~= seq!["v1"@, sig]);
    assert(parts.drop_last() =~= seq![first]);
    assert(seq![first].drop_last() =~= Seq::<Seq<char>>::empty());
    assert(seq![first].last() == first);
    assert(signature_fields(Seq::<Seq<char>>::empty()) == (None::<Seq<char>>, Seq::<Seq<char>>::empty()));
    assert(split_seq(first, '=')[0] == "t"@ && split_seq(first, '=')[1] == t);
    assert(signature_fields(seq![first]) == (Some(t), Seq::<Seq<char>>::empty()));
    assert("v1"@ != "t"@);
    assert(signature_fields(parts) == (Some(t), seq![sig]));
    assert(seq![sig][0] == sig);
}

/// Check a `stripe-signature` header against the body and the webhook key.
/// The timestamp is not checked for freshness.
pub fn verify_signature(header: &str, body: &str, key: &str) -> (r: Result<(), SignatureError>)
    ensures
        r == signature_outcome(header@, body@, key@),
{
    let (timestamp, signatures) = parse_signature_header(header);
    let timestamp = match timestamp {
        Some(t) => t,
        None => {
            return Err(SignatureError::Invalid);
        },
    };
    if signatures.len() == 0 {
        return Err(SignatureError::Invalid);
    }
    // Reconstruct `signed_payload`
    let mut signed_payload = timestamp.clone();
    signed_payload.append(".");
    signed_payload.append(body);
    // Compute expected signature
    let tag = hmac_sha256(key, signed_payload.as_str());
    let expected = hex_encode(tag.as_slice());
    let ghost sigs = strings_seq(signatures@);
    let mut i: usize = 0;
    while i < signatures.len()
        invariant
            i <= signatures@.len(),
            sigs == strings_seq(signatures@),
            signature_fields(split_seq(header@, ',')) == (Some(timestamp@), sigs),
            sigs.len() > 0,
            expected@ == expected_signature(key@, timestamp@, body@),
            forall|k: int| 0 <= k < i ==> signatures@[k]@ != expected@,
        decreases signatures@.len() - i,
    {
        if str_eq(signatures[i].as_str(), expected.as_str()) {
            proof {
                assert(sigs[i as int] == expected@);
                assert(sigs.contains(expected@));
            }
            return Ok(());
        }
        i = i + 1;
    }
    proof {
        if sigs.contains(expected@) {
            let k = choose|k: int| 0 <= k < sigs.len() && sigs[k] == expected@;
            assert(signatures@[k]@ == expected@);
        }
    }
    Err(SignatureError::Unauthorized)
}

/// The webhook events the site acts on.
#[derive(Clone, Copy, Debug, PartialEq, Eq)]
pub enum StripeEvent {
    CheckoutSessionCompleted,
    ChargeRefunded,
    RefundFailed,
    Unhandled,
}

/// Which handler an event type goes to.
pub fn event_kind(ty: &str) -> (r: StripeEvent)
    ensures
        r == (if ty@ == "checkout.session.completed"@ {
            StripeEvent::CheckoutSessionCompleted
        } else if ty@ == "charge.refunded"@ {
            StripeEvent::ChargeRefunded
        } else if ty@ == "refund.failed"@ {
            StripeEvent::RefundFailed
        } else {
            StripeEvent::Unhandled
        }),
{
    if str_eq(ty, "checkout.session.completed") {
        StripeEvent::CheckoutSessionCompleted
    } else if str_eq(ty, "charge.refunded") {
        StripeEvent::ChargeRefunded
    } else if str_eq(ty, "refund.failed") {
        StripeEvent::RefundFailed
    } else {
        StripeEvent::Unhandled
    }
}

/// What a `charge.refunded` event leads to.
#[derive(Clone, Copy, Debug, PartialEq, Eq)]
pub enum RefundAction {
    /// The charge is not marked refunded: only warn.
    NotRefunded,
    /// No session has this payment intent: only warn.
    NoSession,
    /// The session is not awaiting a refund: only warn.
    UnexpectedStatus,
    /// Move the session to refund_confirmed.
    ConfirmRefund,
}

/// Decide a `charge.refunded` event from its `refunded` flag and the status of the
/// session holding its payment intent, if one does.
pub fn charge_refunded_action(refunded: bool, session_status: Option<&str>) -> (r: RefundAction)
    ensures
        r == (if !refunded {
            RefundAction::NotRefunded
        } else if session_status is None {
            RefundAction::NoSession
        } else if session_status->0@ != RsvpSession::REFUND_PENDING@ {
            RefundAction::UnexpectedStatus
        } else {
            RefundAction::ConfirmRefund
        }),
{
    if !refunded {
        return RefundAction::NotRefunded;
    }
    match session_status {
        None => RefundAction::NoSession,
        Some(status) => if !str_eq(status, RsvpSession::REFUND_PENDING) {
            RefundAction::UnexpectedStatus
        } else {
            RefundAction::ConfirmRefund
        },
    }
}

/// What a `checkout.session.completed` event leads to once the payment is recorded.
#[derive(Clone, Copy, Debug, PartialEq, Eq)]
pub enum CheckoutAction {
    /// The payment status is not "paid": only log it.
    NotPaid,
    /// The session was confirmed: send the confirmation emails.
    SendConfirmations,
    /// The session was already refunded: raise an alert.
    AlertRefunded,
    /// Nothing more to do.
    Nothing,
}

/// Whether a checkout's payment status means it was paid.
pub fn checkout_paid(payment_status: &str) -> (r: bool)
    ensures
        r == (payment_status@ == "paid"@),
{
    str_eq(payment_status, "paid")
}

/// Decide what follows a paid checkout, from the status the session has after the
/// confirm-if-payable update.
pub fn checkout_action(status_after: &str) -> (r: CheckoutAction)
    ensures
        r == (if status_after@ == RsvpSession::PAYMENT_CONFIRMED@ {
            CheckoutAction::SendConfirmations
        } else if status_after@ == RsvpSession::REFUND_PENDING@ || status_after@ == RsvpSession::REFUND_CONFIRMED@ {
            CheckoutAction::AlertRefunded
        } else {
            CheckoutAction::Nothing
        }),
{
    if str_eq(status_after, RsvpSession::PAYMENT_CONFIRMED) {
        CheckoutAction::SendConfirmations
    } else if str_eq(status_after, RsvpSession::REFUND_PENDING) || str_eq(status_after, RsvpSession::REFUND_CONFIRMED) {
        CheckoutAction::AlertRefunded
    } else {
        CheckoutAction::Nothing
    }
}

/// The alert raised for a `refund.failed` event; a missing field reads "unknown".
pub fn refund_failed_alert(payment_intent: Option<&str>, failure_reason: Option<&str>) -> (r: String)
    ensures
        r@ == "Stripe[refund.failed]: payment_intent="@ + (match payment_intent {
            Some(p) => p@,
            None => "unknown"@,
        }) + " failure_reason="@ + (match failure_reason {
            Some(f) => f@,
            None => "unknown"@,
        }),
{
    let payment_intent = match payment_intent {
        Some(p) => p,
        None => "unknown",
    };
    let failure_reason = match failure_reason {
        Some(f) => f,
        None => "unknown",
    };
    let mut r = String::from_str("Stripe[refund.failed]: payment_intent=");
    r.append(payment_intent);
    r.append(" failure_reason=");
    r.append(failure_reason);
    r
}

} // verus!
