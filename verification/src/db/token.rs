use rand::Rng;
use vstd::prelude::*;

use crate::text::push_char;

verus! {

/// A token which can be used to authenticate as a user. Timestamps are microseconds.
#[derive(Clone, Debug)]
pub struct SessionToken {
    pub user_id: i64,
    pub token: String,
    pub created_at: i64,
}

/// A token which can be used to login as a user. Timestamps are microseconds.
#[derive(Clone, Debug)]
pub struct LoginToken {
    pub user_id: i64,
    pub token: String,
    pub created_at: i64,
    pub used_at: Option<i64>,
}

/// Draws a random `u64` from the operating system: calls `Rng::gen::<u64>` on `rand::rngs::OsRng`.
/// Nothing is promised of the value.
#[verifier::external_body]
fn random_u64() -> (n: u64) {
    rand::rngs::OsRng.gen::<u64>()
}

/// The lowercase hex digit of `d` (below 16).
pub open spec fn hex_char(d: nat) -> char {
    if d < 10 { (48 + d) as char } else { (87 + d) as char }
}

/// The lowercase hex digits of `n`, without leading zeros.
pub open spec fn hex_digits(n: nat) -> Seq<char>
    decreases n,
{
    if n < 16 {
        seq![hex_char(n)]
    } else {
        hex_digits(n / 16).push(hex_char(n % 16))
    }
}

/// `n` in lowercase hex, zero-padded to at least 8 digits, as `format!("{:08x}", n)` writes it.
pub open spec fn token_text(n: nat) -> Seq<char> {
    let d = hex_digits(n);
    if d.len() < 8 { Seq::new((8 - d.len()) as nat, |i: int| '0') + d } else { d }
}

/// `16` to the power `m`.
pub open spec fn pow16(m: nat) -> nat
    decreases m,
{
    if m == 0 { 1 } else { 16 * pow16((m - 1) as nat) }
}

proof fn lemma_hex_digits(n: nat, m: nat)
    requires
        m >= 1,
        n < pow16(m),
    ensures
        1 <= hex_digits(n).len() <= m,
        forall|i: int| 0 <= i < hex_digits(n).len() ==> {
            let c = #[trigger] hex_digits(n)[i];
            ('0' <= c <= '9') || ('a' <= c <= 'f')
        },
    decreases n,
{
    if n >= 16 {
        assert(m >= 2) by {
            if m == 1 {
                assert(pow16(1) == 16 * pow16(0));
            }
        }
        assert(n / 16 < pow16((m - 1) as nat)) by (nonlinear_arith)
            requires
                n < 16 * pow16((m - 1) as nat),
        ;
        lemma_hex_digits(n / 16, (m - 1) as nat);
        let prev = hex_digits(n / 16);
        assert forall|i: int| 0 <= i < hex_digits(n).len() implies {
            let c = #[trigger] hex_digits(n)[i];
            ('0' <= c <= '9') || ('a' <= c <= 'f')
        } by {
            if i < prev.len() {
                assert(hex_digits(n)[i] == prev[i]);
            }
        }
    }
}

/// A token is lowercase hex, at least 8 characters long, and exactly 8 for any number
/// below 16^8.
pub proof fn lemma_token_shape(n: nat)
    ensures
        token_text(n).len() >= 8,
        n < pow16(8) ==> token_text(n).len() == 8,
        forall|i: int| 0 <= i < token_text(n).len() ==> {
            let c = #[trigger] token_text(n)[i];
            ('0' <= c <= '9') || ('a' <= c <= 'f')
        },
{
    let m: nat = if n < pow16(8) { 8 } else { n + 1 };
    assert(n < pow16(m)) by {
        if n >= pow16(8) {
            lemma_pow16_grows(m);
        }
    }
    lemma_hex_digits(n, m);
    let d = hex_digits(n);
    if d.len() < 8 {
        let pad = Seq::new((8 - d.len()) as nat, |i: int| '0');
        assert forall|i: int| 0 <= i < token_text(n).len() implies {
            let c = #[trigger] token_text(n)[i];
            ('0' <= c <= '9') || ('a' <= c <= 'f')
        } by {
            if i >= pad.len() {
                assert(token_text(n)[i] == d[i - pad.len()]);
            }
        }
    }
}

proof fn lemma_pow16_grows(m: nat)
    ensures
        pow16(m) > m,
    decreases m,
{
    if m > 0 {
        lemma_pow16_grows((m - 1) as nat);
    }
}

fn push_hex(out: &mut String, n: u64)
    ensures
        final(out)@ == old(out)@ + hex_digits(n as nat),
    decreases n,
{
    if n >= 16 {
        push_hex(out, n / 16);
    }
    let d = n % 16;
    let c: char = if d < 10 { (48 + d) as u8 as char } else { (87 + d) as u8 as char };
    proof {
        assert(c == hex_char(d as nat));
    }
    push_char(out, c);
    proof {
        if n >= 16 {
            assert(hex_digits(n as nat) == hex_digits((n / 16) as nat).push(hex_char((n % 16) as nat)));
        }
        assert(final(out)@ =~= old(out)@ + hex_digits(n as nat));
    }
}

/// `n` in lowercase hex, zero-padded to 8 digits.
pub fn format_token(n: u64) -> (r: String)
    ensures
        r@ == token_text(n as nat),
{
    let mut digits = String::new();
    push_hex(&mut digits, n);
    assert(digits@ =~= hex_digits(n as nat));
    let len = digits.as_str().unicode_len();
    if len >= 8 {
        return digits;
    }
    let mut r = String::new();
    let mut k: usize = 0;
    while k < 8 - len
        invariant
            len < 8,
            k <= 8 - len,
            r@ == Seq::new(k as nat, |i: int| '0'),
        decreases 8 - len - k,
    {
        push_char(&mut r, '0');
        k = k + 1;
        assert(r@ =~= Seq::new(k as nat, |i: int| '0'));
    }
    r.append(digits.as_str());
    r
}

/// A fresh random token: a random `u64` in lowercase hex, zero-padded to 8 digits.
pub fn new_token() -> (r: String)
    ensures
        exists|n: u64| r@ == token_text(n as nat),
{
    let n = random_u64();
    format_token(n)
}

} // verus!
